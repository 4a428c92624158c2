//! The schema catalog: the statements that establish each generation of the
//! database's structure.
//!
//! A published generation is never edited. Deployed databases record which
//! versions they have applied, so a correction is always a new generation.
//! Every statement is guarded by an existence check: replaying a generation
//! against a database that already has it changes nothing.

use vstd::prelude::*;
use crate::registry::{
    lemma_pending_start_splits, splits_at, strictly_increasing, Migration, MigrationKind,
    MigrationRegistry,
};
use crate::runner::{lemma_pass_reaches_current, Action, Event, Phase, RunnerView};

verus! {

/// Where the database file lives.
pub const DATABASE_URL: &'static str = "sqlite:lector.db";

/// The version of the generation that creates the first tables.
pub const INITIAL_TABLES_VERSION: i64 = 1;

/// The diagnostic label of that generation.
pub const INITIAL_TABLES_DESCRIPTION: &'static str = "create_initial_tables";

/// The statements of that generation: the `feeds` table; the `articles`
/// table, whose `feed_url` refers to a feed and is removed with it; the
/// indexes on an article's feed, publication time and star; and the `meta`
/// table.
pub const INITIAL_TABLES_SQL: &'static str = "CREATE TABLE IF NOT EXISTS feeds (
                url TEXT PRIMARY KEY,
                name TEXT NOT NULL,
                added_at INTEGER NOT NULL
            );

            CREATE TABLE IF NOT EXISTS articles (
                id TEXT PRIMARY KEY,
                feed_url TEXT NOT NULL REFERENCES feeds(url) ON DELETE CASCADE,
                feed_name TEXT,
                title TEXT NOT NULL,
                link TEXT,
                published TEXT,
                published_ts INTEGER,
                content TEXT,
                author TEXT,
                is_read INTEGER NOT NULL DEFAULT 0,
                is_starred INTEGER NOT NULL DEFAULT 0,
                fetched_at INTEGER NOT NULL
            );

            CREATE INDEX IF NOT EXISTS idx_articles_feed_url ON articles(feed_url);
            CREATE INDEX IF NOT EXISTS idx_articles_published_ts ON articles(published_ts);
            CREATE INDEX IF NOT EXISTS idx_articles_starred ON articles(is_starred);

            CREATE TABLE IF NOT EXISTS meta (
                key TEXT PRIMARY KEY,
                value TEXT
            );";

/// Every generation published so far, oldest first.
pub open spec fn catalog() -> Seq<Migration> {
    seq![
        Migration {
            version: INITIAL_TABLES_VERSION,
            description: INITIAL_TABLES_DESCRIPTION,
            sql: INITIAL_TABLES_SQL,
            kind: MigrationKind::Up,
        },
    ]
}

/// The catalog's versions are positive and strictly increasing.
pub proof fn lemma_catalog_consistent()
    ensures
        strictly_increasing(catalog()),
{
}

/// On a freshly created file the runner asks for the statements of the
/// initial generation, and the pass ends with the file at the latest
/// published version.
pub proof fn lemma_fresh_file_gets_initial_tables()
    ensures
        RunnerView::initial(catalog()).step(Event::Opened { marker: 0 }).demand() == (Action::Apply {
            position: 0,
        }),
        catalog()[0].sql == INITIAL_TABLES_SQL,
        RunnerView::pass(catalog(), 0).phase == Phase::Current,
        RunnerView::pass(catalog(), 0).marker == Some(INITIAL_TABLES_VERSION),
{
    assert(splits_at(catalog(), 0, 0));
    lemma_pending_start_splits(catalog(), 0);
    lemma_pass_reaches_current(catalog(), 0);
}

/// The published generations as a list of records.
pub fn generations() -> (list: Vec<Migration>)
    ensures
        list@ == catalog(),
{
    let mut list: Vec<Migration> = Vec::new();
    list.push(
        Migration {
            version: INITIAL_TABLES_VERSION,
            description: INITIAL_TABLES_DESCRIPTION,
            sql: INITIAL_TABLES_SQL,
            kind: MigrationKind::Up,
        },
    );
    list
}

/// The registry of the published generations.
pub fn registry() -> (registry: MigrationRegistry)
    ensures
        registry@ == catalog(),
{
    proof {
        lemma_catalog_consistent();
    }
    match MigrationRegistry::new(generations()) {
        Ok(registry) => registry,
        Err(_) => vstd::pervasive::unreached(),
    }
}

} // verus!
