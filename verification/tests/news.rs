use kbism::calendar::Date;
use kbism::ids::{DistrictId, NationId, PersonId, Subject, ThreadId};
use kbism::news::{Article, ArticleKind, Builder, NewsLog};
use kbism::text::TextTable;

fn article(doy: u16, kind: ArticleKind, weight: u8, headline: &str) -> Article {
    Article {
        date: Date::new(1, doy),
        kind,
        headline: headline.to_string(),
        body: String::new(),
        subjects: Vec::new(),
        thread: None,
        weight,
        pinned: false,
        because: Vec::new(),
        remedies: Vec::new(),
    }
}

#[test]
fn push_returns_indices_in_order() {
    let mut log = NewsLog::new();
    assert_eq!(log.push(article(1, ArticleKind::Trivial, 1, "a")), 0);
    assert_eq!(log.push(article(2, ArticleKind::Trivial, 1, "b")), 1);
    assert_eq!(log.articles.len(), 2);
    assert_eq!(log.articles[1].headline, "b");
}

#[test]
fn open_thread_reuses_the_open_thread_on_a_topic() {
    let mut log = NewsLog::new();
    let topic = Subject::District(DistrictId(2));
    let t0 = log.open_thread(topic, "水害".to_string(), Date::new(1, 3));
    let again = log.open_thread(topic, "別名".to_string(), Date::new(1, 9));
    assert_eq!(t0, ThreadId(0));
    assert_eq!(again, t0);
    assert_eq!(log.threads.len(), 1);
    assert_eq!(log.threads[0].label, "水害");
    let other = log.open_thread(Subject::Person(PersonId(1)), "x".to_string(), Date::new(1, 9));
    assert_eq!(other, ThreadId(1));
}

#[test]
fn a_closed_thread_is_not_reused() {
    let mut log = NewsLog::new();
    let topic = Subject::Nation(NationId(0));
    let t0 = log.open_thread(topic, "a".to_string(), Date::new(1, 1));
    log.close_thread(t0, Date::new(1, 5));
    assert_eq!(log.thread_of(t0).unwrap().closed, Some(Date::new(1, 5)));
    let t1 = log.open_thread(topic, "b".to_string(), Date::new(1, 6));
    assert_ne!(t1, t0);
    assert_eq!(log.threads.len(), 2);
    assert_eq!(log.thread_of(t1).unwrap().opened, Date::new(1, 6));
}

#[test]
fn push_files_articles_under_their_thread() {
    let mut log = NewsLog::new();
    let t = log.open_thread(Subject::District(DistrictId(0)), "t".to_string(), Date::new(1, 1));
    let mut a = article(1, ArticleKind::Economy, 3, "first");
    a.thread = Some(t);
    log.push(article(1, ArticleKind::Trivial, 1, "no thread"));
    let i = log.push(a.clone());
    let j = log.push(a);
    assert_eq!(log.thread_of(t).unwrap().articles, vec![i, j]);
    assert_eq!(log.thread_of(ThreadId(9)).map(|t| t.id), None);
}

#[test]
fn set_pinned_changes_one_article() {
    let mut log = NewsLog::new();
    log.push(article(1, ArticleKind::Trivial, 1, "a"));
    log.push(article(2, ArticleKind::Trivial, 1, "b"));
    log.set_pinned(1, true);
    assert!(!log.articles[0].pinned);
    assert!(log.articles[1].pinned);
    log.set_pinned(5, true);
    assert_eq!(log.articles.len(), 2);
    log.set_pinned(1, false);
    assert!(!log.articles[1].pinned);
}

#[test]
fn search_by_dates_kind_and_subject() {
    let mut log = NewsLog::new();
    let d = Subject::District(DistrictId(1));
    let mut a = article(10, ArticleKind::Economy, 2, "a");
    a.subjects.push(d);
    log.push(a);
    log.push(article(20, ArticleKind::Economy, 2, "b"));
    log.push(article(30, ArticleKind::Cup, 2, "c"));
    let heads = |v: Vec<&Article>| v.iter().map(|a| a.headline.clone()).collect::<Vec<_>>();
    assert_eq!(heads(log.search(None, None, None, None)), vec!["a", "b", "c"]);
    assert_eq!(heads(log.search(Some(Date::new(1, 20)), None, None, None)), vec!["b", "c"]);
    assert_eq!(heads(log.search(None, Some(Date::new(1, 20)), None, None)), vec!["a", "b"]);
    assert_eq!(heads(log.search(None, None, Some(ArticleKind::Cup), None)), vec!["c"]);
    assert_eq!(heads(log.search(None, None, None, Some(d))), vec!["a"]);
    assert!(log.search(Some(Date::new(2, 1)), None, None, None).is_empty());
}

#[test]
fn highlights_heaviest_first_then_earliest() {
    let mut log = NewsLog::new();
    log.push(article(5, ArticleKind::Trivial, 3, "light"));
    log.push(article(9, ArticleKind::Cup, 9, "late heavy"));
    log.push(article(4, ArticleKind::Cup, 9, "early heavy"));
    log.push(article(6, ArticleKind::Policy, 7, "mid"));
    let mut pinned = article(7, ArticleKind::Local, 1, "pinned");
    pinned.pinned = true;
    log.push(pinned);
    log.push(article(50, ArticleKind::Cup, 10, "outside"));
    let h: Vec<String> =
        log.highlights(Date::new(1, 1), Date::new(1, 30), 5).iter().map(|a| a.headline.clone()).collect();
    assert_eq!(h, vec!["early heavy", "late heavy", "mid", "pinned"]);
}

#[test]
fn highlights_keep_log_order_on_full_ties() {
    let mut log = NewsLog::new();
    log.push(article(3, ArticleKind::Cup, 8, "x"));
    log.push(article(3, ArticleKind::Cup, 8, "y"));
    log.push(article(3, ArticleKind::Cup, 8, "z"));
    let h: Vec<String> =
        log.highlights(Date::new(1, 3), Date::new(1, 3), 8).iter().map(|a| a.headline.clone()).collect();
    assert_eq!(h, vec!["x", "y", "z"]);
}

#[test]
fn builder_fills_headline_and_body() {
    let mut text = TextTable::new();
    text.entries.push(("cup.lost.headline".to_string(), "{place}を失った".to_string()));
    text.entries.push(("cup.lost.body".to_string(), "{place}は他国領に".to_string()));
    text.sort();
    let b = Builder { text: &text };
    let a = b.article(Date::new(2, 330), ArticleKind::Cup, "cup.lost", &[("place", "北町")], 9);
    assert_eq!(a.headline, "北町を失った");
    assert_eq!(a.body, "北町は他国領に");
    assert_eq!(a.weight, 9);
    assert_eq!(a.kind, ArticleKind::Cup);
    assert!(!a.pinned && a.subjects.is_empty() && a.thread.is_none());
    let missing = b.article(Date::new(2, 1), ArticleKind::Trivial, "nothing", &[], 1);
    assert_eq!(missing.headline, "nothing.headline");
}
