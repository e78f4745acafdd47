//! Where the store lives, and what it answers.

pub mod fs;

use crate::filesystem::db::fs::{Entry, EntryKind, EntryView};
use crate::text::{concat, text_view, to_chars};
use vstd::prelude::*;
use vstd::string::StringExecFns;

verus! {

/// What is known of the user's home directory.
#[derive(Debug)]
pub enum Home {
    /// The system names no home directory.
    Missing,
    /// The home directory has a path that is no valid text.
    NotText,
    /// The home directory is at this path.
    At(String),
}

/// Where the store is kept.
#[derive(Debug)]
pub struct Db {
    pub connection_url: Option<String>,
}

/// A row of the index as the shell shows it.
#[derive(Debug)]
pub struct EntryResponse {
    pub name: String,
    pub path: String,
    pub kind: EntryKind,
}

/// An `EntryResponse` as plain values.
pub struct EntryResponseView {
    pub name: Seq<char>,
    pub path: Seq<char>,
    pub kind: EntryKind,
}

impl View for EntryResponse {
    type V = EntryResponseView;

    open spec fn view(&self) -> EntryResponseView {
        EntryResponseView { name: self.name@, path: self.path@, kind: self.kind }
    }
}

impl EntryResponse {
    /// What the shell shows of `entry`.
    pub open spec fn shown(entry: EntryView) -> EntryResponseView {
        EntryResponseView { name: entry.name, path: entry.path, kind: entry.kind }
    }

    /// The response for `entry`.
    pub fn from_entry(entry: &Entry) -> (response: EntryResponse)
        ensures
            response@ == EntryResponse::shown(entry@),
    {
        EntryResponse { name: entry.name.clone(), path: entry.path.clone(), kind: entry.kind }
    }
}

impl Default for Db {
    /// A store with no place yet.
    fn default() -> (db: Db)
        ensures
            db.connection_url is None,
    {
        Db::new()
    }
}

/// The longest that a failed connection waits before the next attempt, in
/// milliseconds.
pub const LONGEST_RETRY_DELAY_MS: u64 = 30_000;

/// How often a connection is attempted before the store is given up.
pub const CONNECTION_ATTEMPTS: u32 = 8;

impl Db {
    /// What follows when attempt `attempt` to connect, counted from 0, has
    /// failed: the wait before the next attempt, or nothing where this was
    /// the last of `CONNECTION_ATTEMPTS`.
    pub open spec fn retry(attempt: nat) -> Option<nat> {
        if attempt + 1 < CONNECTION_ATTEMPTS {
            Some(Db::backoff(attempt))
        } else {
            None
        }
    }

    /// Decides, after attempt `attempt` to connect has failed, how long to
    /// wait before the next one, or that the store is given up.
    pub fn retry_after(attempt: u32) -> (wait: Option<u64>)
        ensures
            match wait {
                Some(delay) => Db::retry(attempt as nat) == Some(delay as nat),
                None => Db::retry(attempt as nat) is None,
            },
    {
        if attempt < CONNECTION_ATTEMPTS - 1 {
            Some(Db::retry_delay_ms(attempt))
        } else {
            None
        }
    }

    /// The wait before attempt `attempt` to connect, counted from 0, in
    /// milliseconds: 100 doubled with every attempt, at most
    /// `LONGEST_RETRY_DELAY_MS`.
    pub open spec fn backoff(attempt: nat) -> nat
        decreases attempt,
    {
        if attempt == 0 {
            100
        } else if 2 * Db::backoff((attempt - 1) as nat) >= LONGEST_RETRY_DELAY_MS {
            LONGEST_RETRY_DELAY_MS as nat
        } else {
            2 * Db::backoff((attempt - 1) as nat)
        }
    }

    /// How long to wait before attempt `attempt` to connect.
    pub fn retry_delay_ms(attempt: u32) -> (delay: u64)
        ensures
            delay == Db::backoff(attempt as nat),
            100 <= delay <= LONGEST_RETRY_DELAY_MS,
    {
        let mut delay: u64 = 100;
        let mut done: u32 = 0;
        while done < attempt && delay < LONGEST_RETRY_DELAY_MS
            invariant
                done <= attempt,
                delay == Db::backoff(done as nat),
                100 <= delay <= LONGEST_RETRY_DELAY_MS,
            decreases attempt - done,
        {
            delay = if 2 * delay >= LONGEST_RETRY_DELAY_MS {
                LONGEST_RETRY_DELAY_MS
            } else {
                2 * delay
            };
            done += 1;
        }
        proof {
            if done < attempt {
                Db::lemma_backoff_stays(done as nat, attempt as nat);
            }
        }
        delay
    }

    /// Once the wait has reached its longest it stays there.
    pub proof fn lemma_backoff_stays(reached: nat, later: nat)
        requires
            reached <= later,
            Db::backoff(reached) == LONGEST_RETRY_DELAY_MS,
        ensures
            Db::backoff(later) == LONGEST_RETRY_DELAY_MS,
        decreases later,
    {
        if reached < later {
            Db::lemma_backoff_stays(reached, (later - 1) as nat);
        }
    }

    /// The store's place below the home directory.
    pub open spec fn default_location() -> Seq<char> {
        ".config/fin/cache.sqlite"@
    }

    /// The store's place where no home directory is known.
    pub open spec fn fallback_location() -> Seq<char> {
        "sqlite:cache.sqlite"@
    }

    /// The relative path `relative` below the directory `base`: the two
    /// joined by one separator, unless `base` is empty or ends in one.
    pub open spec fn joined(base: Seq<char>, relative: Seq<char>) -> Seq<char> {
        if base.len() == 0 || base.last() == '/' {
            base + relative
        } else {
            base + seq!['/'] + relative
        }
    }

    /// Where the store is kept: at the place asked for; else at the place
    /// that the environment names; else below the home directory; else, with
    /// no home directory, in the working directory. A home directory whose
    /// path is no valid text gives no place.
    pub open spec fn location(
        custom: Option<Seq<char>>,
        environment: Option<Seq<char>>,
        home: Home,
    ) -> Option<Seq<char>> {
        match custom {
            Some(url) => Some(url),
            None => match environment {
                Some(url) => Some(url),
                None => match home {
                    Home::At(directory) => Some(Db::joined(directory@, Db::default_location())),
                    Home::NotText => None,
                    Home::Missing => Some(Db::fallback_location()),
                },
            },
        }
    }

    /// A store with no place yet.
    pub fn new() -> (db: Db)
        ensures
            db.connection_url is None,
    {
        Db { connection_url: None }
    }

    /// Joins a relative path to a directory.
    pub fn join(base: &str, relative: &str) -> (path: String)
        ensures
            path@ == Db::joined(base@, relative@),
    {
        let chars = to_chars(base);
        if chars.len() == 0 || chars[chars.len() - 1] == '/' {
            concat(base, relative)
        } else {
            proof {
                reveal_strlit("/");
                assert("/"@ =~= seq!['/']);
            }
            let mut path = concat(base, "/");
            path.append(relative);
            path
        }
    }

    /// Decides where the store is kept, from the place asked for, the value
    /// of the environment variable `DATABASE_URL`, and the home directory.
    pub fn get_database_url(
        database_url: Option<String>,
        environment: Option<String>,
        home: Home,
    ) -> (url: Option<String>)
        ensures
            match url {
                Some(text) => Db::location(
                    text_view(database_url),
                    text_view(environment),
                    home,
                ) == Some(text@),
                None => Db::location(
                    text_view(database_url),
                    text_view(environment),
                    home,
                ) is None,
            },
    {
        match database_url {
            Some(url) => Some(url),
            None => match environment {
                Some(url) => Some(url),
                None => match home {
                    Home::At(directory) => Some(
                        Db::join(directory.as_str(), ".config/fin/cache.sqlite"),
                    ),
                    Home::NotText => None,
                    Home::Missing => Some(String::from_str("sqlite:cache.sqlite")),
                },
            },
        }
    }

    /// Settles where the store is kept.
    pub fn init(&mut self, database_url: Option<String>, environment: Option<String>, home: Home)
        ensures
            text_view(final(self).connection_url) == Db::location(
                text_view(database_url),
                text_view(environment),
                home,
            ),
    {
        self.connection_url = Db::get_database_url(database_url, environment, home);
    }
}

} // verus!
