use lector::error::Error;
use lector::model::{Article, ArticleFilter, ArticleOrder, Feed};
use lector::store::Store;

const FEED_A: &str = "https://a.example/rss";
const FEED_B: &str = "https://b.example/atom";

fn article(id: &str, feed_url: &str, published_ts: Option<i64>, fetched_at: i64) -> Article {
    Article {
        id: id.to_string(),
        feed_url: feed_url.to_string(),
        feed_name: "Example Feed".to_string(),
        title: "Title".to_string(),
        link: None,
        published: None,
        published_ts,
        content: Some("body".to_string()),
        author: Some("auth".to_string()),
        is_read: false,
        is_starred: false,
        fetched_at,
    }
}

fn ids(list: &[Article]) -> Vec<&str> {
    list.iter().map(|a| a.id.as_str()).collect()
}

fn all(store: &Store) -> Vec<Article> {
    store.list_articles(&ArticleFilter::All, ArticleOrder::ByPublishedDesc)
}

fn by_feed(store: &Store, url: &str) -> Vec<Article> {
    store.list_articles(&ArticleFilter::ByFeed(url.to_string()), ArticleOrder::ByPublishedDesc)
}

fn starred(store: &Store) -> Vec<Article> {
    store.list_articles(&ArticleFilter::StarredOnly, ArticleOrder::ByPublishedDesc)
}

#[test]
fn new_store_is_empty() {
    let store = Store::new();
    assert!(store.list_feeds().is_empty());
    assert!(all(&store).is_empty());
    assert_eq!(store.get_meta("lastSync"), None);
}

#[test]
fn feed_with_article_is_listed_and_leaves_with_its_feed() {
    let mut store = Store::new();
    store.upsert_feed(FEED_A, "Example Feed", 1000);
    let stored = article("art-1", FEED_A, Some(2000), 3000);
    assert_eq!(store.upsert_article(article("art-1", FEED_A, Some(2000), 3000)), Ok(()));
    assert_eq!(by_feed(&store, FEED_A), vec![stored]);
    assert!(store.delete_feed(FEED_A));
    assert_eq!(all(&store), Vec::<Article>::new());
    assert!(store.list_feeds().is_empty());
}

#[test]
fn stored_article_comes_back_field_by_field() {
    let mut store = Store::new();
    store.upsert_feed(FEED_A, "Example Feed", 1000);
    store.upsert_article(article("art-1", FEED_A, Some(2000), 3000)).unwrap();
    let list = all(&store);
    assert_eq!(list.len(), 1);
    let got = &list[0];
    assert_eq!(got.id, "art-1");
    assert_eq!(got.feed_url, FEED_A);
    assert_eq!(got.feed_name, "Example Feed");
    assert_eq!(got.title, "Title");
    assert_eq!(got.link, None);
    assert_eq!(got.published, None);
    assert_eq!(got.published_ts, Some(2000));
    assert_eq!(got.content.as_deref(), Some("body"));
    assert_eq!(got.author.as_deref(), Some("auth"));
    assert!(!got.is_read);
    assert!(!got.is_starred);
    assert_eq!(got.fetched_at, 3000);
}

#[test]
fn meta_value_is_read_back_and_overwritten() {
    let mut store = Store::new();
    store.set_meta("lastSync", "42");
    assert_eq!(store.get_meta("lastSync"), Some("42".to_string()));
    store.set_meta("lastSync", "43");
    assert_eq!(store.get_meta("lastSync"), Some("43".to_string()));
}

#[test]
fn meta_keys_do_not_disturb_each_other() {
    let mut store = Store::new();
    store.set_meta("lastSync", "42");
    store.set_meta("theme", "dark");
    store.set_meta("lastSync", "43");
    assert_eq!(store.get_meta("theme"), Some("dark".to_string()));
    assert_eq!(store.get_meta("lastSync"), Some("43".to_string()));
    assert_eq!(store.get_meta("missing"), None);
    assert_eq!(store.get_meta(""), None);
    store.set_meta("", "");
    assert_eq!(store.get_meta(""), Some(String::new()));
}

#[test]
fn article_without_feed_is_refused() {
    let mut store = Store::new();
    store.upsert_feed(FEED_A, "Example Feed", 1000);
    store.upsert_article(article("art-1", FEED_A, Some(2000), 3000)).unwrap();
    let before = all(&store);
    let refused = store.upsert_article(article("art-2", FEED_B, Some(2500), 3000));
    assert_eq!(refused, Err(Error::ConstraintViolation));
    assert_eq!(all(&store), before);
    assert!(!Error::ConstraintViolation.fatal());
}

#[test]
fn article_in_empty_store_is_refused() {
    let mut store = Store::new();
    let refused = store.upsert_article(article("art-1", FEED_A, None, 1));
    assert_eq!(refused, Err(Error::ConstraintViolation));
    assert!(all(&store).is_empty());
}

#[test]
fn replacing_an_article_may_not_orphan_it() {
    let mut store = Store::new();
    store.upsert_feed(FEED_A, "Example Feed", 1000);
    store.upsert_article(article("art-1", FEED_A, Some(2000), 3000)).unwrap();
    let refused = store.upsert_article(article("art-1", FEED_B, Some(2000), 3000));
    assert_eq!(refused, Err(Error::ConstraintViolation));
    assert_eq!(all(&store), vec![article("art-1", FEED_A, Some(2000), 3000)]);
}

#[test]
fn deleting_a_feed_removes_its_articles_only() {
    let mut store = Store::new();
    store.upsert_feed(FEED_A, "A", 1);
    store.upsert_feed(FEED_B, "B", 2);
    store.upsert_article(article("a1", FEED_A, Some(10), 1)).unwrap();
    store.upsert_article(article("b1", FEED_B, Some(20), 1)).unwrap();
    store.upsert_article(article("a2", FEED_A, Some(30), 1)).unwrap();
    store.upsert_article(article("b2", FEED_B, None, 1)).unwrap();
    store.upsert_article(article("a3", FEED_A, None, 1)).unwrap();
    assert!(store.delete_feed(FEED_A));
    assert_eq!(ids(&all(&store)), vec!["b1", "b2"]);
    assert!(by_feed(&store, FEED_A).is_empty());
    for left in all(&store) {
        assert!(store.list_feeds().iter().any(|feed| feed.url == left.feed_url));
    }
    let feeds = store.list_feeds();
    assert_eq!(feeds, vec![Feed { url: FEED_B.to_string(), name: "B".to_string(), added_at: 2 }]);
}

#[test]
fn deleting_an_unknown_feed_changes_nothing() {
    let mut store = Store::new();
    store.upsert_feed(FEED_A, "A", 1);
    store.upsert_article(article("a1", FEED_A, Some(10), 1)).unwrap();
    assert!(!store.delete_feed(FEED_B));
    assert_eq!(store.list_feeds().len(), 1);
    assert_eq!(ids(&all(&store)), vec!["a1"]);
}

#[test]
fn deleted_feed_can_be_subscribed_again_without_old_articles() {
    let mut store = Store::new();
    store.upsert_feed(FEED_A, "A", 1);
    store.upsert_article(article("a1", FEED_A, Some(10), 1)).unwrap();
    store.delete_feed(FEED_A);
    store.upsert_feed(FEED_A, "A again", 5);
    assert!(by_feed(&store, FEED_A).is_empty());
    store.upsert_article(article("a1", FEED_A, Some(10), 1)).unwrap();
    assert_eq!(ids(&by_feed(&store, FEED_A)), vec!["a1"]);
}

#[test]
fn feeds_are_listed_in_order_of_subscription() {
    let mut store = Store::new();
    store.upsert_feed(FEED_B, "B", 2);
    store.upsert_feed(FEED_A, "A", 1);
    let feeds = store.list_feeds();
    assert_eq!(
        feeds,
        vec![
            Feed { url: FEED_B.to_string(), name: "B".to_string(), added_at: 2 },
            Feed { url: FEED_A.to_string(), name: "A".to_string(), added_at: 1 },
        ]
    );
}

#[test]
fn upserting_a_feed_updates_it_in_place() {
    let mut store = Store::new();
    store.upsert_feed(FEED_A, "A", 1);
    store.upsert_feed(FEED_B, "B", 2);
    store.upsert_article(article("a1", FEED_A, Some(10), 1)).unwrap();
    store.upsert_feed(FEED_A, "Renamed", 9);
    let feeds = store.list_feeds();
    assert_eq!(
        feeds,
        vec![
            Feed { url: FEED_A.to_string(), name: "Renamed".to_string(), added_at: 9 },
            Feed { url: FEED_B.to_string(), name: "B".to_string(), added_at: 2 },
        ]
    );
    assert_eq!(ids(&by_feed(&store, FEED_A)), vec!["a1"]);
}

#[test]
fn article_keeps_the_feed_name_it_was_fetched_with() {
    let mut store = Store::new();
    store.upsert_feed(FEED_A, "Example Feed", 1);
    store.upsert_article(article("a1", FEED_A, Some(10), 1)).unwrap();
    store.upsert_feed(FEED_A, "Renamed", 1);
    assert_eq!(all(&store)[0].feed_name, "Example Feed");
}

#[test]
fn upserting_an_article_replaces_the_one_with_its_id() {
    let mut store = Store::new();
    store.upsert_feed(FEED_A, "A", 1);
    store.upsert_feed(FEED_B, "B", 2);
    store.upsert_article(article("x", FEED_A, Some(10), 1)).unwrap();
    store.upsert_article(article("y", FEED_A, Some(10), 1)).unwrap();
    let mut changed = article("x", FEED_B, Some(10), 1);
    changed.title = "Other".to_string();
    changed.is_starred = true;
    store.upsert_article(changed).unwrap();
    let list = all(&store);
    assert_eq!(ids(&list), vec!["x", "y"]);
    assert_eq!(list[0].title, "Other");
    assert_eq!(list[0].feed_url, FEED_B);
    assert!(list[0].is_starred);
    assert_eq!(ids(&by_feed(&store, FEED_A)), vec!["y"]);
    assert_eq!(ids(&by_feed(&store, FEED_B)), vec!["x"]);
}

#[test]
fn flags_are_set_one_by_one() {
    let mut store = Store::new();
    store.upsert_feed(FEED_A, "A", 1);
    store.upsert_article(article("a1", FEED_A, Some(10), 1)).unwrap();
    store.upsert_article(article("a2", FEED_A, Some(5), 1)).unwrap();

    assert!(store.set_article_flags("a1", Some(true), None));
    let list = all(&store);
    assert_eq!((list[0].is_read, list[0].is_starred), (true, false));
    assert_eq!((list[1].is_read, list[1].is_starred), (false, false));

    assert!(store.set_article_flags("a1", None, Some(true)));
    let list = all(&store);
    assert_eq!((list[0].is_read, list[0].is_starred), (true, true));

    assert!(store.set_article_flags("a1", Some(false), Some(false)));
    let list = all(&store);
    assert_eq!((list[0].is_read, list[0].is_starred), (false, false));

    assert!(store.set_article_flags("a1", None, None));
    assert_eq!(all(&store)[0], article("a1", FEED_A, Some(10), 1));
}

#[test]
fn flags_of_an_unknown_article_are_not_set() {
    let mut store = Store::new();
    store.upsert_feed(FEED_A, "A", 1);
    store.upsert_article(article("a1", FEED_A, Some(10), 1)).unwrap();
    assert!(!store.set_article_flags("nope", Some(true), Some(true)));
    assert_eq!(all(&store), vec![article("a1", FEED_A, Some(10), 1)]);
}

#[test]
fn starred_listing_shows_starred_articles_only() {
    let mut store = Store::new();
    store.upsert_feed(FEED_A, "A", 1);
    store.upsert_feed(FEED_B, "B", 1);
    store.upsert_article(article("a1", FEED_A, Some(10), 1)).unwrap();
    store.upsert_article(article("b1", FEED_B, Some(20), 1)).unwrap();
    store.upsert_article(article("a2", FEED_A, Some(30), 1)).unwrap();
    assert!(starred(&store).is_empty());
    store.set_article_flags("a1", None, Some(true));
    store.set_article_flags("a2", Some(true), Some(true));
    assert_eq!(ids(&starred(&store)), vec!["a2", "a1"]);
    store.set_article_flags("a2", None, Some(false));
    assert_eq!(ids(&starred(&store)), vec!["a1"]);
}

#[test]
fn listing_by_feed_shows_that_feed_only() {
    let mut store = Store::new();
    store.upsert_feed(FEED_A, "A", 1);
    store.upsert_feed(FEED_B, "B", 1);
    store.upsert_article(article("a1", FEED_A, Some(10), 1)).unwrap();
    store.upsert_article(article("b1", FEED_B, Some(20), 1)).unwrap();
    store.upsert_article(article("a2", FEED_A, Some(30), 1)).unwrap();
    assert_eq!(ids(&by_feed(&store, FEED_A)), vec!["a2", "a1"]);
    assert_eq!(ids(&by_feed(&store, FEED_B)), vec!["b1"]);
    assert!(by_feed(&store, "https://c.example/").is_empty());
}

#[test]
fn latest_publication_comes_first() {
    let mut store = Store::new();
    store.upsert_feed(FEED_A, "A", 1);
    store.upsert_article(article("mid", FEED_A, Some(200), 1)).unwrap();
    store.upsert_article(article("old", FEED_A, Some(-5), 1)).unwrap();
    store.upsert_article(article("new", FEED_A, Some(300), 1)).unwrap();
    store.upsert_article(article("min", FEED_A, Some(i64::MIN), 1)).unwrap();
    store.upsert_article(article("max", FEED_A, Some(i64::MAX), 1)).unwrap();
    assert_eq!(ids(&all(&store)), vec!["max", "new", "mid", "old", "min"]);
}

#[test]
fn articles_without_publication_time_come_last() {
    let mut store = Store::new();
    store.upsert_feed(FEED_A, "A", 1);
    store.upsert_article(article("none-early", FEED_A, None, 10)).unwrap();
    store.upsert_article(article("dated", FEED_A, Some(i64::MIN), 1)).unwrap();
    store.upsert_article(article("none-late", FEED_A, None, 20)).unwrap();
    assert_eq!(ids(&all(&store)), vec!["dated", "none-late", "none-early"]);
}

#[test]
fn ties_go_to_the_article_ingested_later_then_to_the_one_stored_first() {
    let mut store = Store::new();
    store.upsert_feed(FEED_A, "A", 1);
    store.upsert_article(article("first", FEED_A, Some(100), 5)).unwrap();
    store.upsert_article(article("second", FEED_A, Some(100), 5)).unwrap();
    store.upsert_article(article("later", FEED_A, Some(100), 6)).unwrap();
    store.upsert_article(article("third", FEED_A, Some(100), 5)).unwrap();
    store.upsert_article(article("n1", FEED_A, None, 5)).unwrap();
    store.upsert_article(article("n2", FEED_A, None, 5)).unwrap();
    assert_eq!(ids(&all(&store)), vec!["later", "first", "second", "third", "n1", "n2"]);
}

#[test]
fn listing_does_not_change_the_store() {
    let mut store = Store::new();
    store.upsert_feed(FEED_A, "A", 1);
    store.upsert_article(article("a1", FEED_A, Some(10), 1)).unwrap();
    store.upsert_article(article("a2", FEED_A, Some(30), 1)).unwrap();
    let once = all(&store);
    let twice = all(&store);
    assert_eq!(once, twice);
    assert_eq!(ids(&once), vec!["a2", "a1"]);
}

#[test]
fn store_calls_leave_metadata_alone() {
    let mut store = Store::new();
    store.set_meta("lastSync", "42");
    store.upsert_feed(FEED_A, "A", 1);
    store.upsert_article(article("a1", FEED_A, Some(10), 1)).unwrap();
    store.set_article_flags("a1", Some(true), None);
    store.delete_feed(FEED_A);
    assert_eq!(store.get_meta("lastSync"), Some("42".to_string()));
}

#[test]
fn copies_equal_what_they_were_made_from() {
    let feed = Feed { url: FEED_A.to_string(), name: "A".to_string(), added_at: 7 };
    assert_eq!(feed.clone(), feed);
    let mut full = article("a1", FEED_A, Some(10), 1);
    full.link = Some("https://a.example/1".to_string());
    full.published = Some("Mon, 01 Jan 2024".to_string());
    full.is_read = true;
    assert_eq!(full.clone(), full);
    let bare = Article { content: None, author: None, ..article("a2", FEED_A, None, 2) };
    assert_eq!(bare.clone(), bare);
}

#[test]
fn rank_follows_publication_then_ingestion() {
    let newer = article("n", FEED_A, Some(20), 1);
    let older = article("o", FEED_A, Some(10), 9);
    let undated = article("u", FEED_A, None, 50);
    let undated_late = article("v", FEED_A, None, 60);
    let twin = article("t", FEED_A, Some(20), 1);
    assert!(newer.outranks(&older));
    assert!(!older.outranks(&newer));
    assert!(older.outranks(&undated));
    assert!(!undated.outranks(&older));
    assert!(undated_late.outranks(&undated));
    assert!(!undated.outranks(&undated_late));
    assert!(!newer.outranks(&twin));
    assert!(!twin.outranks(&newer));
    assert!(!newer.outranks(&newer));
}

#[test]
fn filter_admits_by_feed_star_or_everything() {
    let mut a = article("a", FEED_A, Some(1), 1);
    assert!(ArticleFilter::All.admits(&a));
    assert!(!ArticleFilter::StarredOnly.admits(&a));
    assert!(ArticleFilter::ByFeed(FEED_A.to_string()).admits(&a));
    assert!(!ArticleFilter::ByFeed(FEED_B.to_string()).admits(&a));
    a.is_starred = true;
    assert!(ArticleFilter::StarredOnly.admits(&a));
}
