//! The rows that the store holds: feeds, articles and metadata entries,
//! each with the mathematical value that contracts speak of.

use vstd::prelude::*;

verus! {

/// A text that may be absent, as a mathematical value.
pub open spec fn text_view(text: Option<String>) -> Option<Seq<char>> {
    match text {
        Some(s) => Some(s@),
        None => None,
    }
}

/// Copies a text that may be absent.
pub fn clone_text(text: &Option<String>) -> (copy: Option<String>)
    ensures
        copy == *text,
{
    match text {
        Some(s) => Some(s.clone()),
        None => None,
    }
}

/// A subscribed feed. Its `url` identifies it.
#[derive(Debug, PartialEq, Eq)]
pub struct Feed {
    pub url: String,
    pub name: String,
    /// When the feed was subscribed to, in seconds since the epoch.
    pub added_at: i64,
}

/// A feed as a mathematical value.
pub struct FeedView {
    pub url: Seq<char>,
    pub name: Seq<char>,
    pub added_at: i64,
}

impl View for Feed {
    type V = FeedView;

    open spec fn view(&self) -> FeedView {
        FeedView { url: self.url@, name: self.name@, added_at: self.added_at }
    }
}

impl Clone for Feed {
    fn clone(&self) -> (copy: Feed)
        ensures
            copy == *self,
    {
        Feed { url: self.url.clone(), name: self.name.clone(), added_at: self.added_at }
    }
}

/// The feeds of a list as mathematical values.
pub open spec fn feed_views(rows: Seq<Feed>) -> Seq<FeedView> {
    rows.map_values(|row: Feed| row@)
}

/// An article fetched from a feed. Its `id` identifies it, and `feed_url`
/// names the feed that owns it.
#[derive(Debug, PartialEq, Eq)]
pub struct Article {
    pub id: String,
    pub feed_url: String,
    /// The owning feed's name as it was when the article was fetched. It is
    /// kept on purpose and may differ from the feed's present name.
    pub feed_name: String,
    pub title: String,
    pub link: Option<String>,
    /// The publication date as the source gave it.
    pub published: Option<String>,
    /// The publication date as a timestamp.
    pub published_ts: Option<i64>,
    pub content: Option<String>,
    pub author: Option<String>,
    pub is_read: bool,
    pub is_starred: bool,
    /// When the article was ingested.
    pub fetched_at: i64,
}

/// An article as a mathematical value.
pub struct ArticleView {
    pub id: Seq<char>,
    pub feed_url: Seq<char>,
    pub feed_name: Seq<char>,
    pub title: Seq<char>,
    pub link: Option<Seq<char>>,
    pub published: Option<Seq<char>>,
    pub published_ts: Option<i64>,
    pub content: Option<Seq<char>>,
    pub author: Option<Seq<char>>,
    pub is_read: bool,
    pub is_starred: bool,
    pub fetched_at: i64,
}

impl View for Article {
    type V = ArticleView;

    open spec fn view(&self) -> ArticleView {
        ArticleView {
            id: self.id@,
            feed_url: self.feed_url@,
            feed_name: self.feed_name@,
            title: self.title@,
            link: text_view(self.link),
            published: text_view(self.published),
            published_ts: self.published_ts,
            content: text_view(self.content),
            author: text_view(self.author),
            is_read: self.is_read,
            is_starred: self.is_starred,
            fetched_at: self.fetched_at,
        }
    }
}

impl Clone for Article {
    fn clone(&self) -> (copy: Article)
        ensures
            copy == *self,
    {
        Article {
            id: self.id.clone(),
            feed_url: self.feed_url.clone(),
            feed_name: self.feed_name.clone(),
            title: self.title.clone(),
            link: clone_text(&self.link),
            published: clone_text(&self.published),
            published_ts: self.published_ts,
            content: clone_text(&self.content),
            author: clone_text(&self.author),
            is_read: self.is_read,
            is_starred: self.is_starred,
            fetched_at: self.fetched_at,
        }
    }
}

/// The articles of a list as mathematical values.
pub open spec fn article_views(rows: Seq<Article>) -> Seq<ArticleView> {
    rows.map_values(|row: Article| row@)
}

impl ArticleView {
    /// The article with its flags replaced where a new value is given.
    pub open spec fn with_flags(self, is_read: Option<bool>, is_starred: Option<bool>) -> ArticleView {
        ArticleView {
            is_read: match is_read {
                Some(flag) => flag,
                None => self.is_read,
            },
            is_starred: match is_starred {
                Some(flag) => flag,
                None => self.is_starred,
            },
            ..self
        }
    }

    /// Whether `self` has to be listed before `other` on account of its
    /// dates.
    ///
    /// The later publication time comes first, and an article without one
    /// comes after every article that has one. Between articles that agree
    /// in this, the one ingested later comes first.
    pub open spec fn outranks(self, other: ArticleView) -> bool {
        match (self.published_ts, other.published_ts) {
            (Some(mine), Some(theirs)) => mine > theirs || (mine == theirs && self.fetched_at
                > other.fetched_at),
            (Some(_), None) => true,
            (None, Some(_)) => false,
            (None, None) => self.fetched_at > other.fetched_at,
        }
    }
}

impl Article {
    /// Decides `ArticleView::outranks` for two articles.
    pub fn outranks(&self, other: &Article) -> (first: bool)
        ensures
            first == self@.outranks(other@),
    {
        match (self.published_ts, other.published_ts) {
            (Some(mine), Some(theirs)) => mine > theirs || (mine == theirs && self.fetched_at
                > other.fetched_at),
            (Some(_), None) => true,
            (None, Some(_)) => false,
            (None, None) => self.fetched_at > other.fetched_at,
        }
    }
}

/// A setting or a piece of bookkeeping outside feeds and articles. Its
/// `key` identifies it.
#[derive(Debug, PartialEq, Eq)]
pub struct MetaEntry {
    pub key: String,
    pub value: String,
}

/// A metadata entry as a mathematical value.
pub struct MetaView {
    pub key: Seq<char>,
    pub value: Seq<char>,
}

impl View for MetaEntry {
    type V = MetaView;

    open spec fn view(&self) -> MetaView {
        MetaView { key: self.key@, value: self.value@ }
    }
}

/// The entries of a list as mathematical values.
pub open spec fn meta_views(rows: Seq<MetaEntry>) -> Seq<MetaView> {
    rows.map_values(|row: MetaEntry| row@)
}

/// Which articles a listing shows.
#[derive(Debug, PartialEq, Eq)]
pub enum ArticleFilter {
    /// Those of the feed with this url.
    ByFeed(String),
    /// Those that are starred.
    StarredOnly,
    /// Every article.
    All,
}

/// A filter as a mathematical value.
pub enum FilterView {
    ByFeed(Seq<char>),
    StarredOnly,
    All,
}

impl View for ArticleFilter {
    type V = FilterView;

    open spec fn view(&self) -> FilterView {
        match self {
            ArticleFilter::ByFeed(url) => FilterView::ByFeed(url@),
            ArticleFilter::StarredOnly => FilterView::StarredOnly,
            ArticleFilter::All => FilterView::All,
        }
    }
}

impl FilterView {
    /// Whether the filter lets `article` through.
    pub open spec fn admits(self, article: ArticleView) -> bool {
        match self {
            FilterView::ByFeed(url) => article.feed_url == url,
            FilterView::StarredOnly => article.is_starred,
            FilterView::All => true,
        }
    }
}

impl ArticleFilter {
    /// Decides `FilterView::admits` for an article.
    pub fn admits(&self, article: &Article) -> (through: bool)
        ensures
            through == self@.admits(article@),
    {
        match self {
            ArticleFilter::ByFeed(url) => article.feed_url == *url,
            ArticleFilter::StarredOnly => article.is_starred,
            ArticleFilter::All => true,
        }
    }
}

/// The order of a listing. Only one is offered: by publication time, the
/// latest first.
#[derive(Clone, Copy, Debug, PartialEq, Eq, Structural)]
pub enum ArticleOrder {
    ByPublishedDesc,
}

} // verus!
