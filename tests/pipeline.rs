use page_harvest::classify::{
    classify_head, failure_reason, is_html_content_type, outcome_of_body, outcome_of_rejection,
    outcome_of_transport_error, HeadVerdict,
};
use page_harvest::numeral::push_decimal;
use page_harvest::clock::now_nanos;
use page_harvest::pipeline::{first_failure, ConfigError, PipelineConfig};
use page_harvest::queue::{is_progress_milestone, WorkQueue};
use page_harvest::record::{FetchOutcome, FetchResult, FetchTarget};
use page_harvest::tracker::CompletedUrls;
use page_harvest::worker::{bundle_file_name, Bundle, Worker, WorkerAction};

fn target(url: &str) -> FetchTarget {
    FetchTarget { url: url.to_string(), title: None, last_visit_micros: None }
}

fn reason(outcome: &FetchOutcome) -> String {
    match outcome {
        FetchOutcome::Failure(r) => r.clone(),
        FetchOutcome::Success(_) => panic!("expected a failure"),
    }
}

fn page(url: &str) -> FetchOutcome {
    FetchOutcome::Success(format!("<html>{}</html>", url))
}

/// Drives workers over a shared queue, one step at a time, each worker in
/// turn, until all have finished; returns the bundles written and the
/// number of targets popped.
fn run(queue: &mut WorkQueue, workers: usize, threshold: usize) -> (Vec<Bundle>, usize) {
    let mut ws: Vec<Worker> = (0..workers).map(|i| Worker::new(i, threshold)).collect();
    let mut actions: Vec<Option<WorkerAction>> = (0..workers).map(|_| Some(WorkerAction::Pop)).collect();
    let mut bundles = Vec::new();
    let mut popped = 0;
    while actions.iter().any(|a| a.is_some()) {
        for i in 0..workers {
            let next = match actions[i].take() {
                None => None,
                Some(WorkerAction::Pop) => {
                    let (t, _) = queue.pop();
                    if t.is_some() {
                        popped += 1;
                    }
                    Some(ws[i].on_popped(t))
                }
                Some(WorkerAction::Fetch(url)) => Some(ws[i].on_fetched(page(&url), 10)),
                Some(WorkerAction::Flush(b)) => {
                    bundles.push(b);
                    Some(ws[i].on_flushed())
                }
                Some(WorkerAction::Finished) => None,
            };
            actions[i] = next;
        }
    }
    (bundles, popped)
}

fn urls_of(bundles: &[Bundle]) -> Vec<String> {
    let mut urls: Vec<String> =
        bundles.iter().flat_map(|b| b.results.iter().map(|r| r.url.clone())).collect();
    urls.sort();
    urls
}

#[test]
fn non_2xx_status_fails_with_status() {
    match classify_head(404, Some("text/html")) {
        HeadVerdict::Reject(r) => assert_eq!(r, "HTTP status 404"),
        HeadVerdict::ReadBody => panic!("a 404 must fail"),
    }
    match classify_head(302, None) {
        HeadVerdict::Reject(r) => assert_eq!(r, "HTTP status 302"),
        HeadVerdict::ReadBody => panic!("a 302 must fail"),
    }
    match classify_head(503, Some("text/html")) {
        HeadVerdict::Reject(r) => assert_eq!(r, "HTTP status 503"),
        HeadVerdict::ReadBody => panic!("a 503 must fail"),
    }
}

#[test]
fn html_answer_is_read() {
    assert!(matches!(classify_head(200, Some("text/html; charset=utf-8")), HeadVerdict::ReadBody));
    assert!(matches!(classify_head(299, Some("text/html")), HeadVerdict::ReadBody));
}

#[test]
fn non_html_answer_fails() {
    for ct in [Some("application/json"), Some("text/htm"), Some(""), None] {
        match classify_head(200, ct) {
            HeadVerdict::Reject(r) => assert_eq!(r, "Page is not HTML"),
            HeadVerdict::ReadBody => panic!("not HTML: {:?}", ct),
        }
    }
}

#[test]
fn content_type_prefix() {
    assert!(is_html_content_type("text/html"));
    assert!(is_html_content_type("text/html;charset=UTF-8"));
    assert!(!is_html_content_type("text/plain"));
    assert!(!is_html_content_type("TEXT/HTML"));
    assert!(!is_html_content_type(" text/html"));
}

#[test]
fn body_is_kept_exactly() {
    let body = "<html><p>héllo</p></html>\n".to_string();
    match outcome_of_body(Ok(body.clone())) {
        FetchOutcome::Success(b) => assert_eq!(b, body),
        FetchOutcome::Failure(_) => panic!("a read body is a success"),
    }
    assert_eq!(reason(&outcome_of_body(Err("connection reset".to_string()))), "connection reset");
}

#[test]
fn failure_reasons_are_never_empty() {
    assert_eq!(failure_reason(String::new()), "Request failed");
    assert_eq!(failure_reason("timed out".to_string()), "timed out");
    assert_eq!(reason(&outcome_of_transport_error(String::new())), "Request failed");
    assert_eq!(reason(&outcome_of_transport_error("dns error".to_string())), "dns error");
    assert_eq!(reason(&outcome_of_rejection("HTTP status 500".to_string())), "HTTP status 500");
    assert_eq!(reason(&outcome_of_body(Err(String::new()))), "Request failed");
}

#[test]
fn decimal_numerals() {
    let mut s = String::from("n=");
    push_decimal(&mut s, 0);
    assert_eq!(s, "n=0");
    let mut s = String::new();
    push_decimal(&mut s, u64::MAX);
    assert_eq!(s, "18446744073709551615");
}

#[test]
fn bundle_names() {
    assert_eq!(bundle_file_name(1700000000123456789, 3, 7), "1700000000123456789-3-7");
    assert_eq!(bundle_file_name(0, 0, 0), "0-0-0");
    let b = Bundle { worker: 12, sequence: 4, results: Vec::new() };
    let name = b.file_name();
    assert!(name.ends_with("-12-4"));
    let stamp: i64 = name.split('-').next().unwrap().parse().unwrap();
    assert!(stamp > 1_600_000_000_000_000_000);
}

#[test]
fn clock_is_after_epoch() {
    let a = now_nanos();
    let b = now_nanos();
    assert!(a > 0);
    assert!(b >= a);
}

#[test]
fn tracker_collects_bundle_urls() {
    assert!(!CompletedUrls::new().finish().contains(&"a".to_string()));
    let mut done = CompletedUrls::new();
    let bundle = vec![
        FetchResult { url: "a".to_string(), fetched_at_nanos: 1, outcome: page("a") },
        FetchResult { url: "b".to_string(), fetched_at_nanos: 2, outcome: FetchOutcome::Failure("x".to_string()) },
    ];
    done.record_bundle(&bundle);
    done.record_bundle(&Vec::new());
    let done = done.finish();
    assert!(done.contains(&"a".to_string()));
    assert!(done.contains(&"b".to_string()));
    assert!(!done.contains(&"c".to_string()));
}

#[test]
fn lookup_in_many_urls() {
    let mut done = CompletedUrls::new();
    let bundle_of = |range: std::ops::Range<i64>| -> Vec<FetchResult> {
        range
            .rev()
            .map(|i| FetchResult { url: format!("https://site{}.org/ü{}", i % 7, i), fetched_at_nanos: i, outcome: page("x") })
            .collect()
    };
    done.record_bundle(&bundle_of(0..300));
    done.record_bundle(&bundle_of(0..10));
    let done = done.finish();
    for i in 0..300 {
        assert!(done.contains(&format!("https://site{}.org/ü{}", i % 7, i)));
        assert!(!done.contains(&format!("https://site{}.org/ü{}", (i + 1) % 7, i)));
    }
    assert!(!done.contains(&String::new()));
    assert!(!done.contains(&"https://site0.org/ü".to_string()));
}

#[test]
fn queue_excludes_completed_and_pops_to_empty() {
    let mut done = CompletedUrls::new();
    done.record_bundle(&vec![FetchResult { url: "b".to_string(), fetched_at_nanos: 0, outcome: page("b") }]);
    let universe = vec![target("a"), target("b"), target("c")];
    let mut q = WorkQueue::new(&universe, &done.finish());
    assert_eq!(q.len(), 2);
    let (t, left) = q.pop();
    assert_eq!(t.unwrap().url, "c");
    assert_eq!(left, 1);
    let (t, left) = q.pop();
    assert_eq!(t.unwrap().url, "a");
    assert_eq!(left, 0);
    let (t, left) = q.pop();
    assert!(t.is_none());
    assert_eq!(left, 0);
}

#[test]
fn progress_milestones() {
    assert!(!is_progress_milestone(0));
    assert!(!is_progress_milestone(999));
    assert!(is_progress_milestone(1000));
    assert!(is_progress_milestone(25000));
    assert!(!is_progress_milestone(1001));
}

#[test]
fn worker_flushes_at_threshold_and_at_end() {
    let mut w = Worker::new(5, 2);
    let a = w.on_popped(Some(target("u1")));
    assert!(matches!(a, WorkerAction::Fetch(ref u) if u == "u1"));
    assert!(matches!(w.on_fetched(page("u1"), 11), WorkerAction::Pop));
    let _ = w.on_popped(Some(target("u2")));
    match w.on_fetched(FetchOutcome::Failure("e".to_string()), 12) {
        WorkerAction::Flush(b) => {
            assert_eq!(b.worker, 5);
            assert_eq!(b.sequence, 0);
            assert_eq!(b.results.len(), 2);
            assert_eq!(b.results[0].url, "u1");
            assert_eq!(b.results[0].fetched_at_nanos, 11);
            assert_eq!(b.results[1].url, "u2");
        }
        _ => panic!("a full buffer is flushed"),
    }
    assert!(matches!(w.on_flushed(), WorkerAction::Pop));
    let _ = w.on_popped(Some(target("u3")));
    assert!(matches!(w.on_fetched(page("u3"), 13), WorkerAction::Pop));
    match w.on_popped(None) {
        WorkerAction::Flush(b) => {
            assert_eq!(b.sequence, 1);
            assert_eq!(b.results.len(), 1);
            assert_eq!(b.results[0].url, "u3");
        }
        _ => panic!("the remaining results are flushed at the end"),
    }
    assert!(matches!(w.on_flushed(), WorkerAction::Finished));
}

#[test]
fn worker_with_empty_buffer_finishes_without_bundle() {
    let mut w = Worker::new(0, 3);
    assert!(matches!(w.on_popped(None), WorkerAction::Finished));
}

#[test]
fn zero_threshold_flushes_every_result() {
    let mut w = Worker::new(0, 0);
    let _ = w.on_popped(Some(target("x")));
    assert!(matches!(w.on_fetched(page("x"), 1), WorkerAction::Flush(ref b) if b.results.len() == 1));
}

#[test]
fn two_workers_cover_three_urls_once() {
    let universe = vec![target("A"), target("B"), target("C")];
    let mut q = WorkQueue::new(&universe, &CompletedUrls::new().finish());
    let (bundles, popped) = run(&mut q, 2, 2);
    let total: usize = bundles.iter().map(|b| b.results.len()).sum();
    assert_eq!(total, 3);
    assert_eq!(popped, 3);
    assert_eq!(urls_of(&bundles), vec!["A", "B", "C"]);
    assert!(bundles.iter().all(|b| !b.results.is_empty() && b.results.len() <= 2));
}

#[test]
fn results_match_pops_for_many_workers() {
    let universe: Vec<FetchTarget> = (0..57).map(|i| target(&format!("u{}", i))).collect();
    for workers in [1, 2, 5, 60] {
        let mut q = WorkQueue::new(&universe, &CompletedUrls::new().finish());
        let (bundles, popped) = run(&mut q, workers, 4);
        let total: usize = bundles.iter().map(|b| b.results.len()).sum();
        assert_eq!(total, popped);
        assert_eq!(popped, 57);
        let urls = urls_of(&bundles);
        let mut expected: Vec<String> = universe.iter().map(|t| t.url.clone()).collect();
        expected.sort();
        assert_eq!(urls, expected);
    }
}

#[test]
fn second_run_fetches_nothing() {
    let universe = vec![target("A"), target("B"), target("C"), target("D")];
    let mut earlier = CompletedUrls::new();
    earlier.record_bundle(&vec![FetchResult { url: "B".to_string(), fetched_at_nanos: 0, outcome: page("B") }]);
    let mut q = WorkQueue::new(&universe, &earlier.finish());
    let (bundles, popped) = run(&mut q, 2, 2);
    assert_eq!(popped, 3);
    assert_eq!(urls_of(&bundles), vec!["A", "C", "D"]);
    let mut done = CompletedUrls::new();
    done.record_bundle(&vec![FetchResult { url: "B".to_string(), fetched_at_nanos: 0, outcome: page("B") }]);
    for b in &bundles {
        done.record_bundle(&b.results);
    }
    let mut again = WorkQueue::new(&universe, &done.finish());
    assert_eq!(again.len(), 0);
    let (bundles, popped) = run(&mut again, 2, 2);
    assert_eq!(popped, 0);
    assert!(bundles.is_empty());
}

#[test]
fn first_failure_is_reported() {
    let ends: Vec<Result<(), String>> = vec![Ok(()), Ok(())];
    assert_eq!(first_failure(ends), Ok(()));
    assert_eq!(first_failure(Vec::<Result<(), String>>::new()), Ok(()));
    let ends: Vec<Result<(), String>> = vec![Ok(()), Err("disk full".to_string()), Err("later".to_string())];
    assert_eq!(first_failure(ends), Err("disk full".to_string()));
}

#[test]
fn configuration_is_checked() {
    assert!(matches!(PipelineConfig::new(0, 10, 500), Err(ConfigError::NoWorkers)));
    assert!(matches!(PipelineConfig::new(2, 10, 0), Err(ConfigError::EmptyBundles)));
    let c = PipelineConfig::new(10, 10, 500).unwrap();
    assert_eq!((c.parallelism, c.timeout_seconds, c.bundle_size), (10, 10, 500));
}
