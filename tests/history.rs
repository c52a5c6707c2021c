use page_harvest::history::{decide_last_visit, decide_title, merge_history, merge_visit, millis_of_micros};
use page_harvest::record::FetchTarget;

fn item(title: Option<&str>, visit: Option<i64>) -> FetchTarget {
    FetchTarget { url: "https://x.org/".to_string(), title: title.map(|t| t.to_string()), last_visit_micros: visit }
}

#[test]
fn titles_are_combined() {
    let h = item(Some("Home"), None);
    let none = item(None, None);
    assert_eq!(decide_title(None, None), None);
    assert_eq!(decide_title(Some(&none), None), None);
    assert_eq!(decide_title(Some(&h), None), Some("Home".to_string()));
    assert_eq!(decide_title(None, Some("Page".to_string())), Some("Page".to_string()));
    assert_eq!(decide_title(Some(&h), Some("Home".to_string())), Some("Home".to_string()));
    assert_eq!(decide_title(Some(&h), Some("Page".to_string())), Some("Home, Page".to_string()));
}

#[test]
fn last_visit_in_millis() {
    assert_eq!(decide_last_visit(None), None);
    assert_eq!(decide_last_visit(Some(&item(None, None))), None);
    assert_eq!(decide_last_visit(Some(&item(None, Some(1_500_999)))), Some(1_500));
    assert_eq!(millis_of_micros(-1), -1);
    assert_eq!(millis_of_micros(-1000), -1);
    assert_eq!(millis_of_micros(-1001), -2);
    assert_eq!(millis_of_micros(i64::MIN), i64::MIN.div_euclid(1000));
    assert_eq!(millis_of_micros(i64::MAX), i64::MAX / 1000);
}

#[test]
fn merged_visits_keep_first_title_and_latest_visit() {
    let mut a = item(None, Some(5));
    merge_visit(&mut a, item(Some("T"), Some(9)));
    assert_eq!(a.title.as_deref(), Some("T"));
    assert_eq!(a.last_visit_micros, Some(9));
    merge_visit(&mut a, item(Some("U"), None));
    assert_eq!(a.title.as_deref(), Some("T"));
    assert_eq!(a.last_visit_micros, Some(9));
    let mut b = item(None, None);
    merge_visit(&mut b, item(None, Some(3)));
    assert_eq!(b.last_visit_micros, Some(3));
    merge_visit(&mut b, item(None, Some(1)));
    assert_eq!(b.last_visit_micros, Some(3));
}

fn row(url: &str, title: Option<&str>, visit: Option<i64>) -> FetchTarget {
    FetchTarget { url: url.to_string(), title: title.map(|t| t.to_string()), last_visit_micros: visit }
}

#[test]
fn history_has_one_record_per_url() {
    let rows = vec![
        row("https://b.org/", None, Some(10)),
        row("https://a.org/", Some("A"), None),
        row("https://b.org/", Some("B"), Some(30)),
        row("https://c.org/", None, None),
        row("https://b.org/", None, Some(20)),
    ];
    let merged = merge_history(rows);
    let urls: Vec<&str> = merged.iter().map(|t| t.url.as_str()).collect();
    assert_eq!(urls, vec!["https://a.org/", "https://b.org/", "https://c.org/"]);
    assert_eq!(merged[0].title.as_deref(), Some("A"));
    assert_eq!(merged[1].title.as_deref(), Some("B"));
    assert_eq!(merged[1].last_visit_micros, Some(30));
    assert_eq!(merged[2].title, None);
    assert_eq!(merged[2].last_visit_micros, None);
    assert!(merge_history(Vec::new()).is_empty());
}
