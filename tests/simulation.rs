use pagesim::batch::{count_requests, simulate_request, FetchMode};
use pagesim::generate::{generate_events, order_users, users_from_counts, GenerateError, UserSortMode};
use pagesim::model::{EventLog, Tweet, User};
use pagesim::scenario::{simulate_scenario, DEFAULT_CHUNK};
use pagesim::stats::{sum_of, ScenarioStats, SimulationStats};
use rand::rngs::StdRng;
use rand::distributions::Distribution;
use rand::SeedableRng;
use statrs::distribution::LogNormal;

const WEEK: i64 = 7 * 24 * 60 * 60;
const START: i64 = 1_700_000_000;

fn log_with(entries: &[(usize, &[i64])]) -> EventLog {
    let mut log = EventLog::new();
    for (id, stamps) in entries {
        let tweets: Vec<Tweet> = stamps
            .iter()
            .map(|&timestamp| Tweet { user_id: *id, timestamp })
            .collect();
        assert!(log.insert(*id, tweets));
    }
    log
}

fn lognormal_counts(n: usize, rng: &mut StdRng) -> Vec<usize> {
    let dist = LogNormal::new(0.0, 2.0).unwrap();
    (0..n)
        .map(|_| dist.sample(rng).round().max(0.0) as usize)
        .collect()
}

#[test]
fn three_users_all_mode_runs_out_of_events() {
    let users = users_from_counts(&vec![2, 0, 5]);
    let mut rng = StdRng::seed_from_u64(7);
    let log = generate_events(&users, START, START + WEEK, &mut rng).unwrap();
    let (requests, served) = simulate_request(&users, &log, 3, 2, FetchMode::All);
    // 7 events: page boundaries after the 3rd and the 6th, neither satisfies
    // the user without events.
    assert_eq!(requests, 3);
    assert_eq!(served.len(), 3);
    assert_eq!(served[1], 0);
    assert_eq!(served[0], 2);
    assert_eq!(served[2], 5);
    assert_eq!(served.iter().sum::<usize>(), 7);
}

#[test]
fn batch_without_events_needs_one_request() {
    let users = users_from_counts(&vec![0, 0, 0]);
    let log = EventLog::new();
    for mode in [FetchMode::First, FetchMode::All] {
        let (requests, served) = simulate_request(&users, &log, 4, 1, mode);
        assert_eq!(requests, 1);
        assert_eq!(served, vec![0, 0, 0]);
    }
}

#[test]
fn first_stops_before_all() {
    let users = users_from_counts(&vec![3, 1]);
    let log = log_with(&[(0, &[1, 2, 3]), (1, &[4])]);
    let (first, served_first) = simulate_request(&users, &log, 2, 2, FetchMode::First);
    assert_eq!(first, 1);
    assert_eq!(served_first, vec![2, 0]);
    let (all, served_all) = simulate_request(&users, &log, 2, 2, FetchMode::All);
    assert_eq!(all, 3);
    assert_eq!(served_all, vec![3, 1]);
    assert!(all >= first);
}

#[test]
fn events_are_replayed_in_time_order() {
    // Stored out of order: sorted, user 1's two events come first.
    let users = users_from_counts(&vec![2, 2]);
    let log = log_with(&[(0, &[50, 40]), (1, &[10, 20])]);
    let (requests, served) = simulate_request(&users, &log, 2, 2, FetchMode::First);
    assert_eq!(requests, 1);
    assert_eq!(served, vec![0, 2]);
}

#[test]
fn trailing_partial_page_is_not_checked() {
    let users = users_from_counts(&vec![3]);
    let log = log_with(&[(0, &[1, 2, 3])]);
    let (requests, served) = simulate_request(&users, &log, 2, 3, FetchMode::All);
    assert_eq!(requests, 2);
    assert_eq!(served, vec![3]);
}

#[test]
fn count_requests_on_given_order() {
    let events = vec![(5i64, 1usize), (6, 0), (7, 1), (8, 1)];
    let (requests, served) = count_requests(&events, 2, 1, 2, FetchMode::First);
    assert_eq!(requests, 3);
    assert_eq!(served, vec![1, 2]);
    let (requests, served) = count_requests(&events, 2, 1, 1, FetchMode::All);
    assert_eq!(requests, 2);
    assert_eq!(served, vec![1, 1]);
}

#[test]
fn scenario_stats_update_derives_averages() {
    let mut s = ScenarioStats::new();
    s.update(3, &vec![2, 0, 5]);
    assert_eq!(s.num_requests, 3);
    assert_eq!(s.num_users, 3);
    assert_eq!(s.num_tweets, 7);
    assert_eq!(s.avg_tweets_per_user, 7 / 3);
    assert_eq!(s.avg_tweets_per_req, 7 / 3);
    s.update(1, &vec![4, 4]);
    assert_eq!(s.num_tweets, 15);
    assert_eq!(s.avg_tweets_per_user, s.num_tweets / s.num_users);
    assert_eq!(s.avg_tweets_per_req, s.num_tweets / s.num_requests);
    assert_eq!(s.avg_tweets_per_user, 3);
    assert_eq!(s.avg_tweets_per_req, 3);
}

#[test]
fn scenario_stats_empty_batch_averages_zero() {
    let mut s = ScenarioStats::new();
    s.update(0, &vec![]);
    assert_eq!(s.avg_tweets_per_user, 0);
    assert_eq!(s.avg_tweets_per_req, 0);
}

#[test]
fn sum_of_adds_values() {
    assert_eq!(sum_of(&vec![1, 2, 3, 10]), 16);
    assert_eq!(sum_of(&vec![]), 0);
}

fn scenario_of(requests: usize, users: usize, tweets: usize) -> ScenarioStats {
    let mut s = ScenarioStats::new();
    let mut served = vec![0; users];
    if users > 0 {
        served[0] = tweets;
    }
    s.update(requests, &served);
    s
}

#[test]
fn simulation_stats_fold_exact() {
    let acc = SimulationStats::new()
        .add_scenario(scenario_of(10, 4, 30))
        .add_scenario(scenario_of(5, 2, 9));
    assert_eq!(acc.n, 2);
    assert_eq!(acc.total_tweets, 39);
    assert_eq!(acc.total_users, 6);
    assert_eq!(acc.total_requests, 15);
    assert_eq!(acc.avg_tweets, 19);
    assert_eq!(acc.avg_requests, 7);
    assert_eq!(acc.avg_tweets_per_user, 6);
    assert_eq!(acc.avg_tweets_per_req, 2);
}

#[test]
fn simulation_stats_merge_any_grouping() {
    let one = |s: ScenarioStats| SimulationStats::new().add_scenario(s);
    let a = one(scenario_of(10, 4, 30));
    let b = one(scenario_of(5, 2, 9));
    let c = one(scenario_of(7, 3, 1));
    let left = a.merge(&b).merge(&c);
    let right = a.merge(&b.merge(&c));
    let swapped = c.merge(&a).merge(&b);
    assert_eq!(left, right);
    assert_eq!(left, swapped);
    let folded = SimulationStats::new()
        .add_scenario(scenario_of(10, 4, 30))
        .add_scenario(scenario_of(5, 2, 9))
        .add_scenario(scenario_of(7, 3, 1));
    assert_eq!(left, folded);
    assert_eq!(left.n, 3);
    assert_eq!(left.total_requests, 22);
}

#[test]
fn simulation_stats_empty_merge_is_zero() {
    let z = SimulationStats::new().merge(&SimulationStats::new());
    assert_eq!(z.n, 0);
    assert_eq!(z.avg_tweets, 0);
    assert_eq!(z.avg_tweets_per_req, 0);
}

#[test]
fn scenario_processes_every_chunk() {
    let users = users_from_counts(&vec![1, 1, 1, 1, 1]);
    let log = log_with(&[(0, &[1]), (1, &[2]), (2, &[3]), (3, &[4]), (4, &[5])]);
    let s = simulate_scenario(&users, &log, 1, 100, 1, FetchMode::First, 2);
    // Chunks of 2, 2 and 1 users; each stops at its first page.
    assert_eq!(s.num_users, 5);
    assert_eq!(s.num_requests, 3);
    assert_eq!(s.num_tweets, 3);
    assert_eq!(s.avg_tweets_per_user, 0);
    assert_eq!(s.avg_tweets_per_req, 1);
}

#[test]
fn scenario_stops_at_request_ceiling() {
    let users = users_from_counts(&vec![1, 1, 1, 1, 1]);
    let log = log_with(&[(0, &[1]), (1, &[2]), (2, &[3]), (3, &[4]), (4, &[5])]);
    let s = simulate_scenario(&users, &log, 1, 2, 1, FetchMode::First, 2);
    assert_eq!(s.num_users, 4);
    assert_eq!(s.num_requests, 2);
    let s = simulate_scenario(&users, &log, 1, 0, 1, FetchMode::First, 2);
    assert_eq!(s.num_users, 2);
    assert_eq!(s.num_requests, 1);
}

#[test]
fn scenario_default_chunk() {
    let users = users_from_counts(&vec![0; 250]);
    let log = EventLog::new();
    let s = simulate_scenario(&users, &log, 5, 1000, 1, FetchMode::All, DEFAULT_CHUNK);
    assert_eq!(s.num_users, 250);
    assert_eq!(s.num_requests, 3);
    assert_eq!(s.num_tweets, 0);
}

#[test]
fn generate_events_rejects_inverted_window() {
    let users = users_from_counts(&vec![1, 2]);
    let mut rng = StdRng::seed_from_u64(1);
    let r = generate_events(&users, START, START - 1, &mut rng);
    assert!(matches!(r, Err(GenerateError::InvertedWindow)));
}

#[test]
fn generate_events_fills_window() {
    let users = users_from_counts(&vec![3, 0, 200]);
    let mut rng = StdRng::seed_from_u64(3);
    let log = generate_events(&users, START, START + WEEK, &mut rng).unwrap();
    assert_eq!(log.len(), 2);
    assert!(log.get(1).is_none());
    let many = log.get(2).unwrap();
    assert_eq!(many.len(), 200);
    assert_eq!(log.get(0).unwrap().len(), 3);
    assert!(many.iter().all(|t| t.user_id == 2 && START <= t.timestamp && t.timestamp <= START + WEEK));
    // Offsets are drawn, not fixed at either end of the window.
    assert!(many.iter().any(|t| t.timestamp != START + WEEK));
    assert!(many.iter().any(|t| t.timestamp != START));
}

#[test]
fn generate_events_single_second_window() {
    let users = users_from_counts(&vec![4]);
    let mut rng = StdRng::seed_from_u64(5);
    let log = generate_events(&users, START, START, &mut rng).unwrap();
    assert!(log.get(0).unwrap().iter().all(|t| t.timestamp == START));
}

#[test]
fn users_from_counts_numbers_ids() {
    let users = users_from_counts(&vec![4, 0, 9]);
    assert_eq!(users.len(), 3);
    for (i, u) in users.iter().enumerate() {
        assert_eq!(u.id, i);
    }
    assert_eq!(users[2].tweet_count, 9);
}

#[test]
fn user_equality_is_by_id() {
    let a = User { id: 3, tweet_count: 1 };
    let b = User { id: 3, tweet_count: 8 };
    let c = User { id: 4, tweet_count: 1 };
    assert!(a == b);
    assert!(a != c);
}

#[test]
fn event_log_refuses_bad_entries() {
    let mut log = EventLog::new();
    assert!(!log.insert(0, vec![]));
    assert!(!log.insert(0, vec![Tweet { user_id: 1, timestamp: 0 }]));
    assert!(log.insert(0, vec![Tweet { user_id: 0, timestamp: 0 }]));
    assert!(!log.insert(0, vec![Tweet { user_id: 0, timestamp: 1 }]));
    assert_eq!(log.len(), 1);
}

#[test]
fn order_users_policies() {
    let mut rng = StdRng::seed_from_u64(11);
    let mut users = users_from_counts(&vec![5, 1, 9, 3, 7]);
    order_users(&mut users, UserSortMode::Asc, &mut rng);
    let counts: Vec<usize> = users.iter().map(|u| u.tweet_count).collect();
    assert_eq!(counts, vec![1, 3, 5, 7, 9]);
    order_users(&mut users, UserSortMode::Desc, &mut rng);
    let counts: Vec<usize> = users.iter().map(|u| u.tweet_count).collect();
    assert_eq!(counts, vec![9, 7, 5, 3, 1]);
    let mut shuffled = users_from_counts(&(0..50).collect());
    order_users(&mut shuffled, UserSortMode::Random, &mut rng);
    let mut ids: Vec<usize> = shuffled.iter().map(|u| u.id).collect();
    assert_ne!(ids, (0..50).collect::<Vec<usize>>());
    ids.sort();
    assert_eq!(ids, (0..50).collect::<Vec<usize>>());
}

fn seeded_run(seed: u64) -> (usize, Vec<ScenarioStats>) {
    let mut rng = StdRng::seed_from_u64(seed);
    let counts = lognormal_counts(100_000, &mut rng);
    let mut users = users_from_counts(&counts);
    let log = generate_events(&users, START, START + WEEK, &mut rng).unwrap();
    let total: usize = counts.iter().sum();
    let mut results = Vec::new();
    for mode in [FetchMode::All, FetchMode::First] {
        for order in [UserSortMode::Asc, UserSortMode::Desc, UserSortMode::Random] {
            order_users(&mut users, order, &mut rng);
            results.push(simulate_scenario(&users, &log, 500, 12_500, 100, mode, DEFAULT_CHUNK));
        }
    }
    (total, results)
}

#[test]
fn seeded_population_is_reproducible() {
    let (total_a, stats_a) = seeded_run(42);
    let (total_b, stats_b) = seeded_run(42);
    assert_eq!(total_a, total_b);
    assert_eq!(stats_a, stats_b);
    assert!(total_a > 0);
    for s in &stats_a {
        assert_eq!(s.avg_tweets_per_user, s.num_tweets / s.num_users);
        assert_eq!(s.avg_tweets_per_req, s.num_tweets / s.num_requests);
    }
}
