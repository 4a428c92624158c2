//! The store: feeds, articles and metadata with the rules that hold
//! between them, and the operations that the application may use once the
//! schema is current.
//!
//! The rules are those of the schema: a feed's url, an article's id and a
//! metadata key each identify one row; every article belongs to a feed that
//! exists; and removing a feed removes its articles with it.

use vstd::prelude::*;
use crate::error::Error;
use crate::model::{
    article_views, feed_views, meta_views, text_view, Article, ArticleFilter, ArticleOrder,
    ArticleView, Feed, FeedView, FilterView, MetaEntry, MetaView,
};

verus! {

/// No two of the articles share an id.
pub open spec fn distinct_ids(rows: Seq<ArticleView>) -> bool {
    forall|i: int, j: int|
        0 <= i < j < rows.len() ==> (#[trigger] rows[i]).id != (#[trigger] rows[j]).id
}

/// The test that keeps the articles of every feed but the one with `url`.
pub open spec fn of_other_feed(url: Seq<char>) -> spec_fn(ArticleView) -> bool {
    |article: ArticleView| article.feed_url != url
}

/// The store as a mathematical value: its three tables, each in the order
/// in which its rows were first inserted.
pub struct StoreView {
    pub feeds: Seq<FeedView>,
    pub articles: Seq<ArticleView>,
    pub meta: Seq<MetaView>,
}

impl StoreView {
    /// The store without any row.
    pub open spec fn empty() -> StoreView {
        StoreView { feeds: Seq::empty(), articles: Seq::empty(), meta: Seq::empty() }
    }

    /// Whether a feed with this url exists.
    pub open spec fn has_feed(self, url: Seq<char>) -> bool {
        exists|i: int| 0 <= i < self.feeds.len() && (#[trigger] self.feeds[i]).url == url
    }

    /// The row of the feed with this url, where there is one.
    pub open spec fn feed_index(self, url: Seq<char>) -> int {
        choose|i: int| 0 <= i < self.feeds.len() && (#[trigger] self.feeds[i]).url == url
    }

    /// Whether an article with this id exists.
    pub open spec fn has_article(self, id: Seq<char>) -> bool {
        exists|i: int| 0 <= i < self.articles.len() && (#[trigger] self.articles[i]).id == id
    }

    /// The row of the article with this id, where there is one.
    pub open spec fn article_index(self, id: Seq<char>) -> int {
        choose|i: int| 0 <= i < self.articles.len() && (#[trigger] self.articles[i]).id == id
    }

    /// Whether an entry with this key exists.
    pub open spec fn has_meta(self, key: Seq<char>) -> bool {
        exists|i: int| 0 <= i < self.meta.len() && (#[trigger] self.meta[i]).key == key
    }

    /// The row of the entry with this key, where there is one.
    pub open spec fn meta_index(self, key: Seq<char>) -> int {
        choose|i: int| 0 <= i < self.meta.len() && (#[trigger] self.meta[i]).key == key
    }

    /// No two feeds share a url.
    pub open spec fn feed_urls_unique(self) -> bool {
        forall|i: int, j: int|
            0 <= i < j < self.feeds.len() ==> (#[trigger] self.feeds[i]).url != (
            #[trigger] self.feeds[j]).url
    }

    /// No two articles share an id.
    pub open spec fn article_ids_unique(self) -> bool {
        distinct_ids(self.articles)
    }

    /// No two entries share a key.
    pub open spec fn meta_keys_unique(self) -> bool {
        forall|i: int, j: int|
            0 <= i < j < self.meta.len() ==> (#[trigger] self.meta[i]).key != (
            #[trigger] self.meta[j]).key
    }

    /// Every article belongs to a feed that exists: there is no orphan.
    pub open spec fn articles_owned(self) -> bool {
        forall|i: int|
            0 <= i < self.articles.len() ==> self.has_feed((#[trigger] self.articles[i]).feed_url)
    }

    /// The rules that hold of every store.
    pub open spec fn consistent(self) -> bool {
        &&& self.feed_urls_unique()
        &&& self.article_ids_unique()
        &&& self.meta_keys_unique()
        &&& self.articles_owned()
    }

    /// The store after `feed` was inserted, or put in the place of the
    /// feed with its url.
    pub open spec fn upsert_feed(self, feed: FeedView) -> StoreView {
        StoreView {
            feeds: if self.has_feed(feed.url) {
                self.feeds.update(self.feed_index(feed.url), feed)
            } else {
                self.feeds.push(feed)
            },
            ..self
        }
    }

    /// The store after the feed with this url, and every article that
    /// belongs to it, were removed.
    pub open spec fn delete_feed(self, url: Seq<char>) -> StoreView {
        StoreView {
            feeds: if self.has_feed(url) {
                self.feeds.remove(self.feed_index(url))
            } else {
                self.feeds
            },
            articles: self.articles.filter(of_other_feed(url)),
            ..self
        }
    }

    /// The store after `article` was inserted, or put in the place of the
    /// article with its id.
    pub open spec fn upsert_article(self, article: ArticleView) -> StoreView {
        StoreView {
            articles: if self.has_article(article.id) {
                self.articles.update(self.article_index(article.id), article)
            } else {
                self.articles.push(article)
            },
            ..self
        }
    }

    /// The store after the flags of the article with this id were set
    /// where a new value is given. Without such an article nothing changes.
    pub open spec fn set_article_flags(
        self,
        id: Seq<char>,
        is_read: Option<bool>,
        is_starred: Option<bool>,
    ) -> StoreView {
        if self.has_article(id) {
            let row = self.article_index(id);
            StoreView {
                articles: self.articles.update(row, self.articles[row].with_flags(is_read, is_starred)),
                ..self
            }
        } else {
            self
        }
    }

    /// The value stored under `key`, if there is one.
    pub open spec fn meta_value(self, key: Seq<char>) -> Option<Seq<char>> {
        if self.has_meta(key) {
            Some(self.meta[self.meta_index(key)].value)
        } else {
            None
        }
    }

    /// The store after `value` was stored under `key`, in the place of what
    /// was there before.
    pub open spec fn set_meta(self, key: Seq<char>, value: Seq<char>) -> StoreView {
        StoreView {
            meta: if self.has_meta(key) {
                self.meta.update(self.meta_index(key), MetaView { key, value })
            } else {
                self.meta.push(MetaView { key, value })
            },
            ..self
        }
    }

    /// Whether `first` stands before `second` in a listing: by its dates
    /// where they decide, else by the order of insertion.
    pub open spec fn lists_before(self, first: ArticleView, second: ArticleView) -> bool {
        first.outranks(second) || (!second.outranks(first) && self.articles.index_of(first)
            < self.articles.index_of(second))
    }

    /// Whether `listing` is what a listing under `filter` shows: the
    /// articles that the filter admits, each once, the latest first.
    pub open spec fn is_listing(self, filter: FilterView, listing: Seq<ArticleView>) -> bool {
        &&& forall|article: ArticleView|
            listing.contains(article) <==> self.articles.contains(article) && filter.admits(article)
        &&& forall|k: int, l: int|
            0 <= k < l < listing.len() ==> self.lists_before(#[trigger] listing[k], #[trigger] listing[l])
    }
}

/// In a consistent store the feed with a given url stands in one row only.
pub proof fn lemma_feed_row(store: StoreView, url: Seq<char>, row: int)
    requires
        store.feed_urls_unique(),
        0 <= row < store.feeds.len(),
        store.feeds[row].url == url,
    ensures
        store.has_feed(url),
        store.feed_index(url) == row,
{
    let chosen = store.feed_index(url);
    if chosen < row {
        assert(store.feeds[chosen].url != store.feeds[row].url);
    } else if row < chosen {
        assert(store.feeds[row].url != store.feeds[chosen].url);
    }
}

/// In a consistent store the article with a given id stands in one row
/// only.
pub proof fn lemma_article_row(store: StoreView, id: Seq<char>, row: int)
    requires
        store.article_ids_unique(),
        0 <= row < store.articles.len(),
        store.articles[row].id == id,
    ensures
        store.has_article(id),
        store.article_index(id) == row,
{
    let chosen = store.article_index(id);
    if chosen < row {
        assert(store.articles[chosen].id != store.articles[row].id);
    } else if row < chosen {
        assert(store.articles[row].id != store.articles[chosen].id);
    }
}

/// In a consistent store the entry with a given key stands in one row only.
pub proof fn lemma_meta_row(store: StoreView, key: Seq<char>, row: int)
    requires
        store.meta_keys_unique(),
        0 <= row < store.meta.len(),
        store.meta[row].key == key,
    ensures
        store.has_meta(key),
        store.meta_index(key) == row,
{
    let chosen = store.meta_index(key);
    if chosen < row {
        assert(store.meta[chosen].key != store.meta[row].key);
    } else if row < chosen {
        assert(store.meta[row].key != store.meta[chosen].key);
    }
}

/// Inserting or replacing a feed keeps the rules, leaves every other feed
/// and every article as it was, and the feed is there afterwards.
pub proof fn lemma_upsert_feed(store: StoreView, feed: FeedView)
    requires
        store.consistent(),
    ensures
        store.upsert_feed(feed).consistent(),
        store.upsert_feed(feed).has_feed(feed.url),
        store.upsert_feed(feed).feeds[store.upsert_feed(feed).feed_index(feed.url)] == feed,
        forall|url: Seq<char>| store.has_feed(url) ==> store.upsert_feed(feed).has_feed(url),
{
    let after = store.upsert_feed(feed);
    let row = if store.has_feed(feed.url) {
        store.feed_index(feed.url)
    } else {
        store.feeds.len() as int
    };
    assert(after.feeds[row] == feed);
    assert(after.feed_urls_unique()) by {
        assert forall|i: int, j: int| 0 <= i < j < after.feeds.len() implies (#[trigger] after.feeds[i]).url
            != (#[trigger] after.feeds[j]).url by {
            if store.has_feed(feed.url) {
                assert(after.feeds[i].url == store.feeds[i].url);
                assert(after.feeds[j].url == store.feeds[j].url);
            } else {
                assert(after.feeds[i] == store.feeds[i]);
                if j < store.feeds.len() {
                    assert(after.feeds[j] == store.feeds[j]);
                }
            }
        }
    }
    lemma_feed_row(after, feed.url, row);
    assert forall|url: Seq<char>| store.has_feed(url) implies after.has_feed(url) by {
        let witness = store.feed_index(url);
        assert(after.feeds[witness].url == url);
    }
    assert(after.articles_owned()) by {
        assert forall|i: int| 0 <= i < after.articles.len() implies after.has_feed(
            (#[trigger] after.articles[i]).feed_url,
        ) by {
            assert(store.has_feed(store.articles[i].feed_url));
        }
    }
}

/// Keeping a part of the articles keeps their ids distinct.
pub proof fn lemma_filter_keeps_ids_distinct(rows: Seq<ArticleView>, keep: spec_fn(ArticleView) -> bool)
    requires
        distinct_ids(rows),
    ensures
        distinct_ids(rows.filter(keep)),
    decreases rows.len(),
{
    reveal(Seq::filter);
    if rows.len() > 0 {
        let front = rows.drop_last();
        let kept = front.filter(keep);
        assert(distinct_ids(front)) by {
            assert forall|i: int, j: int| 0 <= i < j < front.len() implies (#[trigger] front[i]).id != (
            #[trigger] front[j]).id by {
                assert(front[i] == rows[i]);
                assert(front[j] == rows[j]);
            }
        }
        lemma_filter_keeps_ids_distinct(front, keep);
        if keep(rows.last()) {
            let out = kept.push(rows.last());
            assert forall|i: int, j: int| 0 <= i < j < out.len() implies (#[trigger] out[i]).id != (
            #[trigger] out[j]).id by {
                if j == kept.len() {
                    assert(kept.contains(kept[i]));
                    front.lemma_filter_contains_rev(keep, kept[i]);
                    let w = choose|w: int| 0 <= w < front.len() && front[w] == kept[i];
                    assert(rows[w].id != rows[rows.len() - 1].id);
                } else {
                    assert(out[i] == kept[i]);
                    assert(out[j] == kept[j]);
                }
            }
        }
    }
}

/// Removing a feed removes its articles with it: the rules hold afterwards,
/// so no article is left without its feed; the feed is gone; and the
/// articles that remain are exactly those of the other feeds.
pub proof fn lemma_delete_feed(store: StoreView, url: Seq<char>)
    requires
        store.consistent(),
    ensures
        store.delete_feed(url).consistent(),
        !store.delete_feed(url).has_feed(url),
        forall|i: int|
            0 <= i < store.delete_feed(url).articles.len() ==> (
            #[trigger] store.delete_feed(url).articles[i]).feed_url != url,
        forall|article: ArticleView|
            store.delete_feed(url).articles.contains(article) <==> store.articles.contains(article)
                && article.feed_url != url,
        forall|other: Seq<char>|
            other != url ==> (store.delete_feed(url).has_feed(other) <==> store.has_feed(other)),
{
    let after = store.delete_feed(url);
    let keep = of_other_feed(url);
    // The feeds: one row at most leaves.
    if store.has_feed(url) {
        let gone = store.feed_index(url);
        assert forall|i: int, j: int| 0 <= i < j < after.feeds.len() implies (#[trigger] after.feeds[i]).url
            != (#[trigger] after.feeds[j]).url by {
            let from_i = if i < gone { i } else { i + 1 };
            let from_j = if j < gone { j } else { j + 1 };
            assert(after.feeds[i] == store.feeds[from_i]);
            assert(after.feeds[j] == store.feeds[from_j]);
        }
        assert(!after.has_feed(url)) by {
            if after.has_feed(url) {
                let i = after.feed_index(url);
                let from_i = if i < gone { i } else { i + 1 };
                assert(after.feeds[i] == store.feeds[from_i]);
                lemma_feed_row(store, url, from_i);
            }
        }
    }
    assert forall|other: Seq<char>| other != url implies (after.has_feed(other) <==> store.has_feed(
        other,
    )) by {
        if store.has_feed(url) {
            let gone = store.feed_index(url);
            if store.has_feed(other) {
                let w = store.feed_index(other);
                let to_w = if w < gone { w } else { w - 1 };
                assert(after.feeds[to_w] == store.feeds[w]);
            }
            if after.has_feed(other) {
                let i = after.feed_index(other);
                let from_i = if i < gone { i } else { i + 1 };
                assert(after.feeds[i] == store.feeds[from_i]);
            }
        } else {
            assert(after.feeds == store.feeds);
        }
    }
    // The articles: those of the feed leave.
    lemma_filter_keeps_ids_distinct(store.articles, keep);
    assert forall|i: int| 0 <= i < after.articles.len() implies (#[trigger] after.articles[i]).feed_url
        != url by {
        store.articles.lemma_filter_pred(keep, i);
    }
    assert forall|article: ArticleView|
        after.articles.contains(article) <==> store.articles.contains(article) && article.feed_url
            != url by {
        if after.articles.contains(article) {
            store.articles.lemma_filter_contains_rev(keep, article);
            let i = choose|i: int| 0 <= i < after.articles.len() && after.articles[i] == article;
            store.articles.lemma_filter_pred(keep, i);
        }
        if store.articles.contains(article) && article.feed_url != url {
            let i = choose|i: int| 0 <= i < store.articles.len() && store.articles[i] == article;
            store.articles.lemma_filter_contains(keep, i);
        }
    }
    assert(after.articles_owned()) by {
        assert forall|i: int| 0 <= i < after.articles.len() implies after.has_feed(
            (#[trigger] after.articles[i]).feed_url,
        ) by {
            let article = after.articles[i];
            assert(after.articles.contains(article));
            let w = choose|w: int| 0 <= w < store.articles.len() && store.articles[w] == article;
            assert(store.has_feed(store.articles[w].feed_url));
            assert(article.feed_url != url);
        }
    }
}

/// Keeping the articles that pass a test that all of them pass keeps all.
pub proof fn lemma_filter_keeps_all(rows: Seq<ArticleView>, keep: spec_fn(ArticleView) -> bool)
    requires
        forall|i: int| 0 <= i < rows.len() ==> keep(#[trigger] rows[i]),
    ensures
        rows.filter(keep) == rows,
    decreases rows.len(),
{
    reveal(Seq::filter);
    if rows.len() > 0 {
        let front = rows.drop_last();
        assert forall|i: int| 0 <= i < front.len() implies keep(#[trigger] front[i]) by {
            assert(front[i] == rows[i]);
        }
        lemma_filter_keeps_all(front, keep);
        assert(keep(rows[rows.len() - 1]));
        assert(front.push(rows.last()) =~= rows);
    }
}

/// Removing a feed that does not exist changes nothing.
pub proof fn lemma_delete_unknown_feed(store: StoreView, url: Seq<char>)
    requires
        store.consistent(),
        !store.has_feed(url),
    ensures
        store.delete_feed(url) == store,
{
    let keep = of_other_feed(url);
    assert forall|i: int| 0 <= i < store.articles.len() implies keep(#[trigger] store.articles[i]) by {
        assert(store.has_feed(store.articles[i].feed_url));
    }
    lemma_filter_keeps_all(store.articles, keep);
}

/// Inserting or replacing an article whose feed exists keeps the rules and
/// leaves the feeds and every other article as they were.
pub proof fn lemma_upsert_article(store: StoreView, article: ArticleView)
    requires
        store.consistent(),
        store.has_feed(article.feed_url),
    ensures
        store.upsert_article(article).consistent(),
        store.upsert_article(article).has_article(article.id),
        store.upsert_article(article).articles.contains(article),
        store.upsert_article(article).feeds == store.feeds,
        store.upsert_article(article).articles[store.upsert_article(article).article_index(
            article.id,
        )] == article,
{
    let after = store.upsert_article(article);
    let row = if store.has_article(article.id) {
        store.article_index(article.id)
    } else {
        store.articles.len() as int
    };
    assert(after.articles[row] == article);
    assert(distinct_ids(after.articles)) by {
        assert forall|i: int, j: int| 0 <= i < j < after.articles.len() implies (
        #[trigger] after.articles[i]).id != (#[trigger] after.articles[j]).id by {
            if store.has_article(article.id) {
                assert(after.articles[i].id == store.articles[i].id);
                assert(after.articles[j].id == store.articles[j].id);
            } else {
                assert(after.articles[i] == store.articles[i]);
                if j < store.articles.len() {
                    assert(after.articles[j] == store.articles[j]);
                }
            }
        }
    }
    lemma_article_row(after, article.id, row);
    assert(after.articles_owned()) by {
        assert forall|i: int| 0 <= i < after.articles.len() implies after.has_feed(
            (#[trigger] after.articles[i]).feed_url,
        ) by {
            assert(after.feeds == store.feeds);
            if i != row {
                assert(after.articles[i] == store.articles[i]);
                assert(store.has_feed(store.articles[i].feed_url));
            } else {
                assert(store.has_feed(article.feed_url));
            }
        }
    }
}

/// Setting an article's flags keeps the rules and changes nothing but the
/// flags of that article.
pub proof fn lemma_set_article_flags(
    store: StoreView,
    id: Seq<char>,
    is_read: Option<bool>,
    is_starred: Option<bool>,
)
    requires
        store.consistent(),
    ensures
        store.set_article_flags(id, is_read, is_starred).consistent(),
        store.set_article_flags(id, is_read, is_starred).articles.len() == store.articles.len(),
        forall|i: int|
            0 <= i < store.articles.len() ==> (#[trigger] store.set_article_flags(
                id,
                is_read,
                is_starred,
            ).articles[i]) == if store.articles[i].id == id {
                store.articles[i].with_flags(is_read, is_starred)
            } else {
                store.articles[i]
            },
{
    let after = store.set_article_flags(id, is_read, is_starred);
    if store.has_article(id) {
        let row = store.article_index(id);
        let rows = store.articles;
        assert forall|i: int| 0 <= i < rows.len() implies (#[trigger] after.articles[i]) == if rows[i].id
            == id {
            rows[i].with_flags(is_read, is_starred)
        } else {
            rows[i]
        } by {
            if store.articles[i].id == id {
                lemma_article_row(store, id, i);
            }
        }
        assert(distinct_ids(after.articles)) by {
            assert forall|i: int, j: int| 0 <= i < j < after.articles.len() implies (
            #[trigger] after.articles[i]).id != (#[trigger] after.articles[j]).id by {
                assert(after.articles[i].id == store.articles[i].id);
                assert(after.articles[j].id == store.articles[j].id);
            }
        }
        assert(after.articles_owned()) by {
            assert forall|i: int| 0 <= i < after.articles.len() implies after.has_feed(
                (#[trigger] after.articles[i]).feed_url,
            ) by {
                assert(after.feeds == store.feeds);
                assert(after.articles[i].feed_url == store.articles[i].feed_url);
                assert(store.has_feed(store.articles[i].feed_url));
            }
        }
    }
}

/// Storing a value keeps the rules; reading the key afterwards gives that
/// value; every other key reads as before; and a key that was there keeps
/// its one row.
pub proof fn lemma_set_meta(store: StoreView, key: Seq<char>, value: Seq<char>)
    requires
        store.consistent(),
    ensures
        store.set_meta(key, value).consistent(),
        store.set_meta(key, value).meta_value(key) == Some(value),
        forall|other: Seq<char>|
            other != key ==> store.set_meta(key, value).meta_value(other) == store.meta_value(other),
        store.has_meta(key) ==> store.set_meta(key, value).meta.len() == store.meta.len(),
        !store.has_meta(key) ==> store.set_meta(key, value).meta.len() == store.meta.len() + 1,
{
    let after = store.set_meta(key, value);
    let row = if store.has_meta(key) {
        store.meta_index(key)
    } else {
        store.meta.len() as int
    };
    assert(after.meta[row] == MetaView { key, value });
    assert(after.meta_keys_unique()) by {
        assert forall|i: int, j: int| 0 <= i < j < after.meta.len() implies (#[trigger] after.meta[i]).key
            != (#[trigger] after.meta[j]).key by {
            if store.has_meta(key) {
                assert(after.meta[i].key == store.meta[i].key);
                assert(after.meta[j].key == store.meta[j].key);
            } else {
                assert(after.meta[i] == store.meta[i]);
                if j < store.meta.len() {
                    assert(after.meta[j] == store.meta[j]);
                }
            }
        }
    }
    lemma_meta_row(after, key, row);
    assert(after.articles_owned()) by {
        assert forall|i: int| 0 <= i < after.articles.len() implies after.has_feed(
            (#[trigger] after.articles[i]).feed_url,
        ) by {
            assert(after.feeds == store.feeds);
            assert(store.has_feed(store.articles[i].feed_url));
        }
    }
    assert forall|other: Seq<char>| other != key implies after.meta_value(other) == store.meta_value(
        other,
    ) by {
        if store.has_meta(other) {
            let w = store.meta_index(other);
            assert(after.meta[w] == store.meta[w]);
            lemma_meta_row(after, other, w);
        }
        if after.has_meta(other) {
            let w = after.meta_index(other);
            assert(after.meta[w] == store.meta[w]);
            lemma_meta_row(store, other, w);
        }
    }
}

/// Whether an article that stands in row `first_row` is listed before one
/// that stands in row `second_row`.
spec fn placed_before(
    first: ArticleView,
    first_row: int,
    second: ArticleView,
    second_row: int,
) -> bool {
    first.outranks(second) || (!second.outranks(first) && first_row < second_row)
}

/// `listing` is the listing of the first `upto` rows, and `source` names
/// the row that each of its articles comes from.
spec fn lists_rows(
    rows: Seq<ArticleView>,
    filter: FilterView,
    upto: int,
    listing: Seq<ArticleView>,
    source: Seq<int>,
) -> bool {
    &&& 0 <= upto <= rows.len()
    &&& source.len() == listing.len()
    &&& forall|k: int|
        0 <= k < listing.len() ==> {
            &&& 0 <= (#[trigger] source[k]) < upto
            &&& listing[k] == rows[source[k]]
            &&& filter.admits(listing[k])
        }
    &&& forall|row: int| 0 <= row < upto && filter.admits(#[trigger] rows[row]) ==> source.contains(row)
    &&& forall|k: int, l: int|
        0 <= k < l < listing.len() ==> placed_before(
            #[trigger] listing[k],
            source[k],
            #[trigger] listing[l],
            source[l],
        )
}

/// A row that the filter does not admit leaves the listing as it is.
proof fn lemma_lists_rows_skip(
    rows: Seq<ArticleView>,
    filter: FilterView,
    upto: int,
    listing: Seq<ArticleView>,
    source: Seq<int>,
)
    requires
        lists_rows(rows, filter, upto, listing, source),
        upto < rows.len(),
        !filter.admits(rows[upto]),
    ensures
        lists_rows(rows, filter, upto + 1, listing, source),
{
}

/// A row that the filter admits goes behind every article that it does not
/// outrank, and before the first that it outranks.
proof fn lemma_lists_rows_insert(
    rows: Seq<ArticleView>,
    filter: FilterView,
    upto: int,
    listing: Seq<ArticleView>,
    source: Seq<int>,
    at: int,
)
    requires
        lists_rows(rows, filter, upto, listing, source),
        upto < rows.len(),
        filter.admits(rows[upto]),
        0 <= at <= listing.len(),
        forall|k: int| 0 <= k < at ==> !rows[upto].outranks(#[trigger] listing[k]),
        at < listing.len() ==> rows[upto].outranks(listing[at]),
    ensures
        lists_rows(rows, filter, upto + 1, listing.insert(at, rows[upto]), source.insert(at, upto)),
{
    let new = rows[upto];
    let out = listing.insert(at, new);
    let from = source.insert(at, upto);
    listing.insert_ensures(at, new);
    source.insert_ensures(at, upto);
    assert forall|k: int| 0 <= k < out.len() implies {
        &&& 0 <= (#[trigger] from[k]) < upto + 1
        &&& out[k] == rows[from[k]]
        &&& filter.admits(out[k])
    } by {
        if k < at {
            assert(from[k] == source[k] && out[k] == listing[k]);
        } else if k > at {
            assert(from[k] == source[k - 1] && out[k] == listing[k - 1]);
        }
    }
    assert forall|row: int| 0 <= row < upto + 1 && filter.admits(#[trigger] rows[row]) implies from.contains(
        row,
    ) by {
        if row == upto {
            assert(from[at] == row);
        } else {
            assert(source.contains(row));
            let k = choose|k: int| 0 <= k < source.len() && source[k] == row;
            if k < at {
                assert(from[k] == row);
            } else {
                assert(from[k + 1] == row);
            }
        }
    }
    assert forall|k: int, l: int| 0 <= k < l < out.len() implies placed_before(
        #[trigger] out[k],
        from[k],
        #[trigger] out[l],
        from[l],
    ) by {
        if l < at {
            assert(out[k] == listing[k] && out[l] == listing[l]);
            assert(from[k] == source[k] && from[l] == source[l]);
        } else if l == at {
            assert(out[k] == listing[k] && from[k] == source[k]);
            assert(!new.outranks(listing[k]));
        } else if k > at {
            assert(out[k] == listing[k - 1] && out[l] == listing[l - 1]);
            assert(from[k] == source[k - 1] && from[l] == source[l - 1]);
            assert(placed_before(listing[k - 1], source[k - 1], listing[l - 1], source[l - 1]));
        } else if k == at {
            assert(out[l] == listing[l - 1] && from[l] == source[l - 1]);
            assert(new.outranks(listing[at]));
            if l - 1 > at {
                assert(placed_before(listing[at], source[at], listing[l - 1], source[l - 1]));
            }
        } else {
            assert(out[k] == listing[k] && out[l] == listing[l - 1]);
            assert(from[k] == source[k] && from[l] == source[l - 1]);
            assert(placed_before(listing[k], source[k], listing[l - 1], source[l - 1]));
        }
    }
}

/// Once every row has been looked at, the listing is the one that
/// `StoreView::is_listing` describes.
proof fn lemma_lists_rows_done(
    store: StoreView,
    filter: FilterView,
    listing: Seq<ArticleView>,
    source: Seq<int>,
)
    requires
        store.article_ids_unique(),
        lists_rows(store.articles, filter, store.articles.len() as int, listing, source),
    ensures
        store.is_listing(filter, listing),
{
    let rows = store.articles;
    assert forall|k: int| 0 <= k < listing.len() implies rows.index_of(#[trigger] listing[k])
        == source[k] by {
        let found = rows.index_of(listing[k]);
        assert(rows[source[k]] == listing[k]);
        if found < source[k] {
            assert(rows[found].id != rows[source[k]].id);
        } else if source[k] < found {
            assert(rows[source[k]].id != rows[found].id);
        }
    }
    assert forall|article: ArticleView|
        listing.contains(article) <==> rows.contains(article) && filter.admits(article) by {
        if listing.contains(article) {
            let k = choose|k: int| 0 <= k < listing.len() && listing[k] == article;
            assert(rows[source[k]] == article);
        }
        if rows.contains(article) && filter.admits(article) {
            let row = choose|row: int| 0 <= row < rows.len() && rows[row] == article;
            assert(source.contains(row));
            let k = choose|k: int| 0 <= k < source.len() && source[k] == row;
            assert(listing[k] == article);
        }
    }
    assert forall|k: int, l: int| 0 <= k < l < listing.len() implies store.lists_before(
        #[trigger] listing[k],
        #[trigger] listing[l],
    ) by {
        assert(placed_before(listing[k], source[k], listing[l], source[l]));
    }
}

/// Two sequences that hold the same articles, each in the order of a
/// listing, are the same sequence.
pub proof fn lemma_same_articles_same_order(
    store: StoreView,
    first: Seq<ArticleView>,
    second: Seq<ArticleView>,
)
    requires
        forall|article: ArticleView| first.contains(article) <==> second.contains(article),
        forall|k: int, l: int|
            0 <= k < l < first.len() ==> store.lists_before(#[trigger] first[k], #[trigger] first[l]),
        forall|k: int, l: int|
            0 <= k < l < second.len() ==> store.lists_before(
                #[trigger] second[k],
                #[trigger] second[l],
            ),
    ensures
        first == second,
    decreases first.len(),
{
    if first.len() == 0 {
        if second.len() > 0 {
            assert(second.contains(second[0]));
        }
        assert(first =~= second);
    } else {
        let last = first.last();
        assert(first.contains(last));
        let j = choose|j: int| 0 <= j < second.len() && second[j] == last;
        if j < second.len() - 1 {
            let after = second[j + 1];
            assert(store.lists_before(second[j], after));
            assert(second.contains(after));
            let i = choose|i: int| 0 <= i < first.len() && first[i] == after;
            if i < first.len() - 1 {
                assert(store.lists_before(first[i], first[first.len() - 1]));
            }
        }
        let first_front = first.drop_last();
        let second_front = second.drop_last();
        assert forall|article: ArticleView|
            first_front.contains(article) <==> second_front.contains(article) by {
            if first_front.contains(article) {
                let i = choose|i: int| 0 <= i < first_front.len() && first_front[i] == article;
                assert(first[i] == article);
                assert(store.lists_before(first[i], first[first.len() - 1]));
                assert(second.contains(article));
                let k = choose|k: int| 0 <= k < second.len() && second[k] == article;
                assert(second_front[k] == article);
            }
            if second_front.contains(article) {
                let k = choose|k: int| 0 <= k < second_front.len() && second_front[k] == article;
                assert(second[k] == article);
                assert(store.lists_before(second[k], second[second.len() - 1]));
                assert(first.contains(article));
                let i = choose|i: int| 0 <= i < first.len() && first[i] == article;
                assert(first_front[i] == article);
            }
        }
        assert forall|k: int, l: int| 0 <= k < l < first_front.len() implies store.lists_before(
            #[trigger] first_front[k],
            #[trigger] first_front[l],
        ) by {
            assert(first_front[k] == first[k] && first_front[l] == first[l]);
        }
        assert forall|k: int, l: int| 0 <= k < l < second_front.len() implies store.lists_before(
            #[trigger] second_front[k],
            #[trigger] second_front[l],
        ) by {
            assert(second_front[k] == second[k] && second_front[l] == second[l]);
        }
        lemma_same_articles_same_order(store, first_front, second_front);
        assert(first =~= first_front.push(last));
        assert(second =~= second_front.push(last));
    }
}

/// A store has one listing under a filter and no other: what
/// `StoreView::is_listing` asks for leaves no choice.
pub proof fn lemma_listing_is_unique(
    store: StoreView,
    filter: FilterView,
    first: Seq<ArticleView>,
    second: Seq<ArticleView>,
)
    requires
        store.is_listing(filter, first),
        store.is_listing(filter, second),
    ensures
        first == second,
{
    lemma_same_articles_same_order(store, first, second);
}

/// The feeds, articles and metadata of the application.
///
/// Every operation expects the rules of `StoreView::consistent` and keeps
/// them; a new store has them.
pub struct Store {
    feeds: Vec<Feed>,
    articles: Vec<Article>,
    meta: Vec<MetaEntry>,
}

impl View for Store {
    type V = StoreView;

    closed spec fn view(&self) -> StoreView {
        StoreView {
            feeds: feed_views(self.feeds@),
            articles: article_views(self.articles@),
            meta: meta_views(self.meta@),
        }
    }
}

impl Store {
    /// A store without any row.
    pub fn new() -> (store: Store)
        ensures
            store@ == StoreView::empty(),
            store@.consistent(),
    {
        let store = Store { feeds: Vec::new(), articles: Vec::new(), meta: Vec::new() };
        assert(store@.feeds =~= Seq::empty());
        assert(store@.articles =~= Seq::empty());
        assert(store@.meta =~= Seq::empty());
        store
    }

    fn find_feed(&self, url: &String) -> (found: Option<usize>)
        ensures
            found matches Some(row) ==> row < self@.feeds.len() && self@.feeds[row as int].url == url@,
            found is None ==> !self@.has_feed(url@),
    {
        let mut row: usize = 0;
        while row < self.feeds.len()
            invariant
                row <= self.feeds.len(),
                forall|i: int| 0 <= i < row ==> (#[trigger] self@.feeds[i]).url != url@,
            decreases self.feeds.len() - row,
        {
            if self.feeds[row].url == *url {
                return Some(row);
            }
            row += 1;
        }
        None
    }

    fn find_article(&self, id: &String) -> (found: Option<usize>)
        ensures
            found matches Some(row) ==> row < self@.articles.len() && self@.articles[row as int].id
                == id@,
            found is None ==> !self@.has_article(id@),
    {
        let mut row: usize = 0;
        while row < self.articles.len()
            invariant
                row <= self.articles.len(),
                forall|i: int| 0 <= i < row ==> (#[trigger] self@.articles[i]).id != id@,
            decreases self.articles.len() - row,
        {
            if self.articles[row].id == *id {
                return Some(row);
            }
            row += 1;
        }
        None
    }

    fn find_meta(&self, key: &String) -> (found: Option<usize>)
        ensures
            found matches Some(row) ==> row < self@.meta.len() && self@.meta[row as int].key == key@,
            found is None ==> !self@.has_meta(key@),
    {
        let mut row: usize = 0;
        while row < self.meta.len()
            invariant
                row <= self.meta.len(),
                forall|i: int| 0 <= i < row ==> (#[trigger] self@.meta[i]).key != key@,
            decreases self.meta.len() - row,
        {
            if self.meta[row].key == *key {
                return Some(row);
            }
            row += 1;
        }
        None
    }

    /// Subscribes to a feed, or updates the name and the date of the feed
    /// with this url. A feed that is updated keeps its place and its
    /// articles.
    pub fn upsert_feed(&mut self, url: &str, name: &str, added_at: i64)
        requires
            old(self)@.consistent(),
        ensures
            final(self)@ == old(self)@.upsert_feed((FeedView { url: url@, name: name@, added_at })),
            final(self)@.consistent(),
    {
        let feed = Feed { url: url.to_owned(), name: name.to_owned(), added_at };
        let ghost before = self@;
        match self.find_feed(&feed.url) {
            Some(row) => {
                proof {
                    lemma_feed_row(before, feed@.url, row as int);
                }
                let _ = self.feeds.remove(row);
                self.feeds.insert(row, feed);
                assert(self@.feeds =~= before.feeds.update(row as int, feed@));
            },
            None => {
                self.feeds.push(feed);
                assert(self@.feeds =~= before.feeds.push(feed@));
            },
        }
        proof {
            lemma_upsert_feed(before, feed@);
        }
    }

    /// Unsubscribes from the feed with this url and removes its articles
    /// with it, in one step. Tells whether there was such a feed.
    pub fn delete_feed(&mut self, url: &str) -> (existed: bool)
        requires
            old(self)@.consistent(),
        ensures
            existed == old(self)@.has_feed(url@),
            final(self)@ == old(self)@.delete_feed(url@),
            final(self)@.consistent(),
    {
        let url = url.to_owned();
        let ghost before = self@;
        let ghost keep = of_other_feed(url@);
        let ghost mut done: int = 0;
        let mut row: usize = 0;
        while row < self.articles.len()
            invariant
                self.feeds == old(self).feeds,
                self.meta == old(self).meta,
                before == old(self)@,
                keep == of_other_feed(url@),
                0 <= done <= before.articles.len(),
                row <= self.articles.len(),
                self@.articles.take(row as int) == before.articles.take(done).filter(keep),
                self@.articles.skip(row as int) == before.articles.skip(done),
            decreases self.articles.len() - row,
        {
            let ghost current = self@.articles;
            assert(current.skip(row as int).len() == current.len() - row);
            assert(before.articles.skip(done).len() == before.articles.len() - done);
            assert(current[row as int] == current.skip(row as int)[0]);
            assert(before.articles[done] == before.articles.skip(done)[0]);
            assert(before.articles.take(done + 1) =~= before.articles.take(done).push(
                before.articles[done],
            ));
            assert(current.skip(row + 1) =~= current.skip(row as int).skip(1));
            assert(before.articles.skip(done + 1) =~= before.articles.skip(done).skip(1));
            proof {
                before.articles.take(done).lemma_filter_push(before.articles[done], keep);
            }
            if self.articles[row].feed_url == url {
                let _ = self.articles.remove(row);
                assert(self@.articles =~= current.remove(row as int));
                assert(self@.articles.take(row as int) =~= current.take(row as int));
                assert(self@.articles.skip(row as int) =~= current.skip(row + 1));
            } else {
                assert(current.take(row + 1) =~= current.take(row as int).push(current[row as int]));
                row += 1;
            }
            proof {
                done = done + 1;
            }
        }
        assert(self@.articles =~= before.articles.filter(keep)) by {
            assert(self@.articles.take(row as int) =~= self@.articles);
            assert(self@.articles.skip(row as int).len() == 0);
            assert(before.articles.skip(done).len() == 0);
            assert(before.articles.take(done) =~= before.articles);
        }
        let existed = match self.find_feed(&url) {
            Some(at) => {
                proof {
                    lemma_feed_row(before, url@, at as int);
                }
                let _ = self.feeds.remove(at);
                assert(self@.feeds =~= before.feeds.remove(at as int));
                true
            },
            None => false,
        };
        proof {
            lemma_delete_feed(before, url@);
        }
        existed
    }

    /// The subscribed feeds, in the order in which they were first
    /// subscribed to.
    pub fn list_feeds(&self) -> (list: Vec<Feed>)
        ensures
            feed_views(list@) == self@.feeds,
    {
        let mut list: Vec<Feed> = Vec::new();
        let mut row: usize = 0;
        while row < self.feeds.len()
            invariant
                row <= self.feeds.len(),
                list@ == self.feeds@.take(row as int),
            decreases self.feeds.len() - row,
        {
            list.push(self.feeds[row].clone());
            assert(list@ =~= self.feeds@.take(row + 1));
            row += 1;
        }
        assert(list@ =~= self.feeds@);
        list
    }

    /// Stores an article, in the place of the article with its id where
    /// there is one.
    ///
    /// An article whose `feed_url` names no feed is refused with
    /// `Error::ConstraintViolation`, and the store stays as it was.
    pub fn upsert_article(&mut self, article: Article) -> (stored: Result<(), Error>)
        requires
            old(self)@.consistent(),
        ensures
            stored is Ok <==> old(self)@.has_feed(article@.feed_url),
            stored is Ok ==> final(self)@ == old(self)@.upsert_article(article@),
            stored matches Err(error) ==> error == Error::ConstraintViolation && final(self)@ == old(
                self,
            )@,
            final(self)@.consistent(),
    {
        let ghost before = self@;
        match self.find_feed(&article.feed_url) {
            Some(_) => {
                assert(before.has_feed(article@.feed_url));
            },
            None => {
                return Err(Error::ConstraintViolation);
            },
        }
        match self.find_article(&article.id) {
            Some(row) => {
                proof {
                    lemma_article_row(before, article@.id, row as int);
                }
                let _ = self.articles.remove(row);
                self.articles.insert(row, article);
                assert(self@.articles =~= before.articles.update(row as int, article@));
            },
            None => {
                self.articles.push(article);
                assert(self@.articles =~= before.articles.push(article@));
            },
        }
        proof {
            lemma_upsert_article(before, article@);
        }
        Ok(())
    }

    /// Sets the read flag, the star, or both, of the article with this id;
    /// a flag for which nothing is given stays as it is. Tells whether there
    /// was such an article.
    pub fn set_article_flags(
        &mut self,
        id: &str,
        is_read: Option<bool>,
        is_starred: Option<bool>,
    ) -> (found: bool)
        requires
            old(self)@.consistent(),
        ensures
            found == old(self)@.has_article(id@),
            final(self)@ == old(self)@.set_article_flags(id@, is_read, is_starred),
            final(self)@.consistent(),
    {
        let id = id.to_owned();
        let ghost before = self@;
        proof {
            lemma_set_article_flags(before, id@, is_read, is_starred);
        }
        match self.find_article(&id) {
            Some(row) => {
                proof {
                    lemma_article_row(before, id@, row as int);
                }
                let mut article = self.articles.remove(row);
                if let Some(flag) = is_read {
                    article.is_read = flag;
                }
                if let Some(flag) = is_starred {
                    article.is_starred = flag;
                }
                assert(article@ == before.articles[row as int].with_flags(is_read, is_starred));
                self.articles.insert(row, article);
                assert(self@.articles =~= before.articles.update(row as int, article@));
                true
            },
            None => false,
        }
    }

    /// The articles that `filter` admits, each once.
    ///
    /// The latest publication time comes first; an article without one comes
    /// after all that have one; between articles that agree in this, the one
    /// ingested later comes first; and between articles that agree in that
    /// too, the one stored first.
    pub fn list_articles(&self, filter: &ArticleFilter, order: ArticleOrder) -> (list: Vec<Article>)
        requires
            self@.consistent(),
        ensures
            self@.is_listing(filter@, article_views(list@)),
    {
        let ArticleOrder::ByPublishedDesc = order;
        let mut list: Vec<Article> = Vec::new();
        let ghost mut source: Seq<int> = Seq::empty();
        let mut row: usize = 0;
        assert(article_views(list@) =~= Seq::empty());
        while row < self.articles.len()
            invariant
                row <= self.articles.len(),
                lists_rows(self@.articles, filter@, row as int, article_views(list@), source),
            decreases self.articles.len() - row,
        {
            let ghost listed = article_views(list@);
            if filter.admits(&self.articles[row]) {
                let article = self.articles[row].clone();
                let mut at: usize = 0;
                while at < list.len() && !article.outranks(&list[at])
                    invariant
                        at <= list.len(),
                        listed == article_views(list@),
                        forall|k: int| 0 <= k < at ==> !article@.outranks(#[trigger] listed[k]),
                    decreases list.len() - at,
                {
                    at += 1;
                }
                list.insert(at, article);
                proof {
                    lemma_lists_rows_insert(self@.articles, filter@, row as int, listed, source, at as int);
                    source = source.insert(at as int, row as int);
                    assert(article_views(list@) =~= listed.insert(at as int, article@));
                }
            } else {
                proof {
                    lemma_lists_rows_skip(self@.articles, filter@, row as int, listed, source);
                }
            }
            row += 1;
        }
        proof {
            lemma_lists_rows_done(self@, filter@, article_views(list@), source);
        }
        list
    }

    /// The value stored under `key`, if there is one.
    pub fn get_meta(&self, key: &str) -> (value: Option<String>)
        requires
            self@.consistent(),
        ensures
            text_view(value) == self@.meta_value(key@),
    {
        let key = key.to_owned();
        match self.find_meta(&key) {
            Some(row) => {
                proof {
                    lemma_meta_row(self@, key@, row as int);
                }
                Some(self.meta[row].value.clone())
            },
            None => None,
        }
    }

    /// Stores `value` under `key`, in the place of what was stored there.
    pub fn set_meta(&mut self, key: &str, value: &str)
        requires
            old(self)@.consistent(),
        ensures
            final(self)@ == old(self)@.set_meta(key@, value@),
            final(self)@.consistent(),
    {
        let entry = MetaEntry { key: key.to_owned(), value: value.to_owned() };
        let ghost before = self@;
        match self.find_meta(&entry.key) {
            Some(row) => {
                proof {
                    lemma_meta_row(before, entry@.key, row as int);
                }
                let _ = self.meta.remove(row);
                self.meta.insert(row, entry);
                assert(self@.meta =~= before.meta.update(row as int, entry@));
            },
            None => {
                self.meta.push(entry);
                assert(self@.meta =~= before.meta.push(entry@));
            },
        }
        proof {
            lemma_set_meta(before, key@, value@);
        }
    }
}

} // verus!
