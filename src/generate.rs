use crate::batch::log_agrees;
use crate::model::{distinct_ids, log_wf, EventLog, Tweet, User};
use rand::rngs::StdRng;
use rand::seq::SliceRandom;
use rand::Rng;
use vstd::prelude::*;

verus! {

#[verifier::external_type_specification]
#[verifier::external_body]
pub struct ExStdRng(StdRng);

/// Relies on `Rng::gen_range` of rand over `0..=span`: a value of that range
/// (the range is never empty, so the call does not panic).
#[verifier::external_body]
fn draw_offset(rng: &mut StdRng, span: u64) -> (r: u64)
    ensures
        r <= span,
{
    rng.gen_range(0..=span)
}

/// Relies on `SliceRandom::shuffle` of rand: the elements are permuted.
#[verifier::external_body]
fn shuffle_users(users: &mut Vec<User>, rng: &mut StdRng)
    ensures
        final(users)@.to_multiset() == old(users)@.to_multiset(),
{
    users.shuffle(rng);
}

/// Relies on `slice::sort_by_key` keyed by `tweet_count`: the elements are
/// permuted into ascending order of that field.
#[verifier::external_body]
fn sort_by_count(users: &mut Vec<User>)
    ensures
        final(users)@.to_multiset() == old(users)@.to_multiset(),
        ascending_counts(final(users)@),
{
    users.sort_by_key(|u| u.tweet_count);
}

pub open spec fn ascending_counts(s: Seq<User>) -> bool {
    forall|i: int, j: int|
        0 <= i < j < s.len() ==> (#[trigger] s[i]).tweet_count <= (#[trigger] s[j]).tweet_count
}

pub open spec fn descending_counts(s: Seq<User>) -> bool {
    forall|i: int, j: int|
        0 <= i < j < s.len() ==> (#[trigger] s[i]).tweet_count >= (#[trigger] s[j]).tweet_count
}

/// How the population is ordered before a scenario runs.
#[derive(Debug, Clone, Copy, PartialEq, Eq, Structural)]
pub enum UserSortMode {
    Asc,
    Desc,
    Random,
}

/// Reorders the population: ascending or descending by `tweet_count`, or a
/// random permutation drawn from `rng`. The users themselves are unchanged.
pub fn order_users(users: &mut Vec<User>, mode: UserSortMode, rng: &mut StdRng)
    ensures
        final(users)@.to_multiset() == old(users)@.to_multiset(),
        mode == UserSortMode::Asc ==> ascending_counts(final(users)@),
        mode == UserSortMode::Desc ==> descending_counts(final(users)@),
{
    match mode {
        UserSortMode::Asc => sort_by_count(users),
        UserSortMode::Desc => {
            sort_by_count(users);
            reverse_users(users);
        },
        UserSortMode::Random => shuffle_users(users, rng),
    }
}

fn reverse_users(users: &mut Vec<User>)
    ensures
        final(users)@ == old(users)@.reverse(),
        final(users)@.to_multiset() == old(users)@.to_multiset(),
        ascending_counts(old(users)@) ==> descending_counts(final(users)@),
{
    let ghost orig = users@;
    let n = users.len();
    let mut out: Vec<User> = Vec::new();
    let mut i: usize = n;
    while i > 0
        invariant
            i <= n,
            n == orig.len(),
            users@ == orig,
            out@.len() == n - i,
            forall|k: int| 0 <= k < n - i ==> #[trigger] out@[k] == orig[n - 1 - k],
        decreases i,
    {
        i = i - 1;
        out.push(users[i]);
    }
    *users = out;
    assert(users@ =~= orig.reverse());
    proof {
        orig.lemma_reverse_to_multiset();
    }
}

/// The population whose user `i` has id `i` and `counts[i]` events.
pub fn users_from_counts(counts: &Vec<usize>) -> (r: Vec<User>)
    ensures
        r@.len() == counts@.len(),
        forall|i: int| 0 <= i < r@.len() ==> (#[trigger] r@[i]).id == i && r@[i].tweet_count == counts@[i],
        distinct_ids(r@),
{
    let mut users: Vec<User> = Vec::new();
    let mut i: usize = 0;
    while i < counts.len()
        invariant
            i <= counts@.len(),
            users@.len() == i,
            forall|k: int| 0 <= k < i ==> (#[trigger] users@[k]).id == k && users@[k].tweet_count == counts@[k],
        decreases counts@.len() - i,
    {
        users.push(User { id: i, tweet_count: counts[i] });
        i = i + 1;
    }
    users
}

/// Why events could not be generated.
#[derive(Debug, Clone, Copy, PartialEq, Eq, Structural)]
pub enum GenerateError {
    /// The window ends before it starts.
    InvertedWindow,
}

/// The log of a population: exactly the users with events have an entry,
/// holding `tweet_count` events of that user, each within the window.
pub open spec fn generated_log(users: Seq<User>, start: i64, end: i64, log: Map<usize, Seq<Tweet>>) -> bool {
    &&& log_wf(log)
    &&& forall|id: usize|
        #[trigger] log.contains_key(id) <==> exists|i: int|
            0 <= i < users.len() && (#[trigger] users[i]).id == id && users[i].tweet_count > 0
    &&& forall|i: int|
        0 <= i < users.len() && (#[trigger] users[i]).tweet_count > 0 ==> log[users[i].id].len()
            == users[i].tweet_count
    &&& forall|id: usize, k: int|
        log.contains_key(id) && 0 <= k < log[id].len() ==> start <= (#[trigger] log[id][k]).timestamp
            <= end
}

/// Draws, for every user, `tweet_count` timestamps uniformly at whole seconds
/// in `[start, end]` (both included), with `rng`. Fails before drawing
/// anything when the window is inverted.
pub fn generate_events(users: &Vec<User>, start: i64, end: i64, rng: &mut StdRng) -> (r: Result<
    EventLog,
    GenerateError,
>)
    requires
        distinct_ids(users@),
    ensures
        r is Err <==> end < start,
        r is Err ==> r == Err::<EventLog, GenerateError>(GenerateError::InvertedWindow),
        r matches Ok(log) ==> generated_log(users@, start, end, log@) && log_agrees(users@, log@),
{
    if end < start {
        return Err(GenerateError::InvertedWindow);
    }
    let span: u64 = ((end as i128) - (start as i128)) as u64;
    let mut log = EventLog::new();
    let mut i: usize = 0;
    while i < users.len()
        invariant
            i <= users@.len(),
            start <= end,
            span as int == end - start,
            distinct_ids(users@),
            log.wf(),
            forall|id: usize|
                #[trigger] log@.contains_key(id) <==> exists|k: int|
                    0 <= k < i && (#[trigger] users@[k]).id == id && users@[k].tweet_count > 0,
            forall|k: int|
                0 <= k < i && (#[trigger] users@[k]).tweet_count > 0 ==> log@[users@[k].id].len()
                    == users@[k].tweet_count,
            forall|id: usize, k: int|
                log@.contains_key(id) && 0 <= k < log@[id].len() ==> start <= (
                #[trigger] log@[id][k]).timestamp <= end,
        decreases users@.len() - i,
    {
        let user = users[i];
        let mut tweets: Vec<Tweet> = Vec::new();
        let mut j: usize = 0;
        while j < user.tweet_count
            invariant
                j <= user.tweet_count,
                start <= end,
                span as int == end - start,
                tweets@.len() == j,
                forall|k: int|
                    0 <= k < j ==> (#[trigger] tweets@[k]).user_id == user.id && start
                        <= tweets@[k].timestamp <= end,
            decreases user.tweet_count - j,
        {
            let offset = draw_offset(rng, span);
            let timestamp = ((start as i128) + (offset as i128)) as i64;
            tweets.push(Tweet { user_id: user.id, timestamp });
            j = j + 1;
        }
        if user.tweet_count > 0 {
            proof {
                if log@.contains_key(user.id) {
                    let k = choose|k: int|
                        0 <= k < i && (#[trigger] users@[k]).id == user.id && users@[k].tweet_count > 0;
                    assert(users@[k].id != users@[i as int].id);
                }
            }
            let ghost before = log@;
            let ghost added = tweets@;
            let inserted = log.insert(user.id, tweets);
            assert(inserted);
            proof {
                assert forall|k: int|
                    0 <= k < i + 1 && (#[trigger] users@[k]).tweet_count > 0 implies log@[users@[k].id].len()
                        == users@[k].tweet_count by {
                    if k < i {
                        assert(users@[k].id != users@[i as int].id);
                    }
                }
                assert forall|id: usize|
                    #[trigger] log@.contains_key(id) implies exists|k: int|
                        0 <= k < i + 1 && (#[trigger] users@[k]).id == id && users@[k].tweet_count > 0 by {
                    if id == user.id {
                        assert(users@[i as int].id == id);
                    } else {
                        assert(before.contains_key(id));
                    }
                }
            }
        } else {
            proof {
                assert forall|id: usize|
                    #[trigger] log@.contains_key(id) <== exists|k: int|
                        0 <= k < i + 1 && (#[trigger] users@[k]).id == id && users@[k].tweet_count > 0 by {
                }
            }
        }
        i = i + 1;
    }
    proof {
        assert forall|k: int|
            0 <= k < users@.len() && log@.contains_key(#[trigger] users@[k].id) implies log@[users@[k].id].len()
                == users@[k].tweet_count by {
            if users@[k].tweet_count == 0 {
                let m = choose|m: int|
                    0 <= m < users@.len() && (#[trigger] users@[m]).id == users@[k].id && users@[m].tweet_count > 0;
                if m != k {
                    assert(users@[m].id != users@[k].id);
                }
            }
        }
    }
    Ok(log)
}

} // verus!
