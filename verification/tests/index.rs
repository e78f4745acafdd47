use fin::config::{Config, ConfigError, Settings};
use fin::filesystem::cache::{
    Cache, CacheEntry, CacheStatus, CacheType, Completion, Refresh, StoreError,
};
use fin::filesystem::db::fs::{
    Entry, EntryKind, Fs, Walked, APPLICATIONS_DIRECTORY, MAX_DEPTH,
};
use fin::filesystem::db::{
    Db, EntryResponse, Home, CONNECTION_ATTEMPTS, LONGEST_RETRY_DELAY_MS,
};
use fin::filesystem::table::Table;
use fin::filesystem::{FsPlugin, RESULT_LIMIT, RESULT_PRIORITY};
use fin::plugin_api::result::{Action, Icon};
use fin::plugin_api::Plugin;

fn entry(name: &str, path: &str, kind: EntryKind, atime: i64) -> Entry {
    Entry { name: name.to_string(), path: path.to_string(), kind, ctime: 1, mtime: 2, atime }
}

fn paths(entries: &[Entry]) -> Vec<String> {
    entries.iter().map(|entry| entry.path.clone()).collect()
}

fn walked(name: &str, path: &str, is_file: bool, is_dir: bool) -> Walked {
    Walked {
        file_name: Some(name.to_string()),
        path: path.to_string(),
        depth: if path.starts_with("/Applications/") {
            path.matches('/').count() - 1
        } else {
            path.matches('/').count() - 2
        },
        is_file,
        is_dir,
        ctime: 10,
        mtime: 20,
        atime: 30,
    }
}

#[test]
fn kinds_have_their_words() {
    assert_eq!(EntryKind::File.as_str(), "file");
    assert_eq!(EntryKind::Directory.as_str(), "directory");
    assert_eq!(EntryKind::Symlink.as_str(), "symlink");
    assert_eq!(EntryKind::Application.as_str(), "application");
    for kind in [EntryKind::File, EntryKind::Directory, EntryKind::Symlink, EntryKind::Application] {
        assert_eq!(EntryKind::from_name(kind.as_str()), Some(kind));
    }
    assert_eq!(EntryKind::from_name("File"), None);
    assert_eq!(EntryKind::from_name(""), None);
}

#[test]
fn dot_names_are_hidden() {
    assert!(Fs::is_hidden(Some(".git")));
    assert!(Fs::is_hidden(Some(".")));
    assert!(Fs::is_hidden(None));
    assert!(!Fs::is_hidden(Some("src")));
    assert!(!Fs::is_hidden(Some("a.b")));
    assert!(!Fs::is_hidden(Some("")));
}

#[test]
fn application_bundles_are_told_by_what_follows_the_last_dot() {
    assert!(Fs::is_application("Safari.app"));
    assert!(Fs::is_application("Some.Tool.app"));
    assert!(Fs::is_application("x.application"));
    assert!(Fs::is_application("apple"));
    assert!(Fs::is_application("app"));
    assert!(!Fs::is_application("app.txt"));
    assert!(!Fs::is_application("Safari.app.bak"));
    assert!(!Fs::is_application("Safari.app."));
    assert!(!Fs::is_application("Safari.ap"));
    assert!(!Fs::is_application("ap"));
    assert!(!Fs::is_application(""));
    assert!(!Fs::is_application("Safari.APP"));
}

#[test]
fn a_walked_entry_is_a_file_a_directory_or_a_link() {
    assert_eq!(Fs::classify(true, false), EntryKind::File);
    assert_eq!(Fs::classify(true, true), EntryKind::File);
    assert_eq!(Fs::classify(false, true), EntryKind::Directory);
    assert_eq!(Fs::classify(false, false), EntryKind::Symlink);
    assert_eq!(MAX_DEPTH, 5);
    assert_eq!(APPLICATIONS_DIRECTORY, "/Applications/");
}

#[test]
fn a_sweep_lists_files_then_applications() {
    let files = vec![
        walked("docs", "/home/u/docs", false, true),
        walked(".cache", "/home/u/.cache", false, true),
        walked("a.txt", "/home/u/docs/a.txt", true, false),
        Walked { file_name: None, ..walked("", "/home/u/\u{fffd}", true, false) },
        walked("dangling", "/home/u/dangling", false, false),
        walked("deep", "/home/u/a/b/c/d/deep", true, false),
        walked("deeper", "/home/u/a/b/c/d/e/deeper", true, false),
        Walked { depth: 0, ..walked("u", "/home/u", false, true) },
    ];
    let applications = vec![
        walked("Mail.app", "/Applications/Mail.app", false, true),
        walked("readme.txt", "/Applications/readme.txt", true, false),
        walked("Tool.app", "/Applications/Tool.app", false, true),
        Walked { depth: 2, ..walked("Inner.app", "/Applications/Tool.app/Inner.app", false, true) },
    ];
    let entries = Fs::index_file_system(files, applications);
    assert_eq!(
        paths(&entries),
        vec![
            "/home/u/docs",
            "/home/u/docs/a.txt",
            "/home/u/dangling",
            "/home/u/a/b/c/d/deep",
            "/Applications/Mail.app",
            "/Applications/Tool.app"
        ]
    );
    assert_eq!(entries[0].kind, EntryKind::Directory);
    assert_eq!(entries[1].kind, EntryKind::File);
    assert_eq!(entries[1].name, "a.txt");
    assert_eq!((entries[1].ctime, entries[1].mtime, entries[1].atime), (10, 20, 30));
    assert_eq!(entries[2].kind, EntryKind::Symlink);
    assert_eq!(entries[3].kind, EntryKind::File);
    assert_eq!(entries[4].kind, EntryKind::Application);
    assert_eq!(entries[5].kind, EntryKind::Application);
}

#[test]
fn a_later_row_takes_the_place_of_one_with_the_same_path() {
    let mut table = Table::new();
    table.upsert(entry("a", "/a", EntryKind::File, 1));
    table.upsert(entry("b", "/b", EntryKind::File, 2));
    table.upsert(entry("a again", "/a", EntryKind::Directory, 3));
    assert_eq!(table.len(), 2);
    let rows = table.rows();
    let again = rows.iter().find(|row| row.path == "/a").unwrap();
    assert_eq!(again.name, "a again");
    assert_eq!(again.kind, EntryKind::Directory);
    assert_eq!(again.atime, 3);
    table.upsert_all(vec![
        entry("c", "/c", EntryKind::File, 4),
        entry("b2", "/b", EntryKind::File, 5),
        entry("c2", "/c", EntryKind::File, 6),
    ]);
    assert_eq!(table.len(), 3);
    let mut names: Vec<String> = table.rows().iter().map(|row| row.name.clone()).collect();
    names.sort();
    assert_eq!(names, vec!["a again", "b2", "c2"]);
    table.clear();
    assert_eq!(table.len(), 0);
}

#[test]
fn a_lookup_filters_ranks_and_caps() {
    let mut table = Table::new();
    table.upsert_all(vec![
        entry("foo.txt", "/home/u/foo.txt", EntryKind::File, 10),
        entry("bar.txt", "/home/u/bar.txt", EntryKind::File, 99),
        entry("notes", "/home/u/foo/notes", EntryKind::File, 30),
        entry("Foo.app", "/Applications/Foo.app", EntryKind::Application, 5),
        entry("foot.app", "/Applications/foot.app", EntryKind::Application, 1),
        entry("food", "/home/u/food", EntryKind::Directory, 30),
        entry("snafoo.app", "/Applications/snafoo.app", EntryKind::Application, 7),
        entry("link", "/home/u/foolink", EntryKind::Symlink, 20),
    ]);
    let found = table.query("foo", 100);
    assert_eq!(
        paths(&found),
        vec![
            "/Applications/snafoo.app",
            "/Applications/foot.app",
            "/home/u/foo/notes",
            "/home/u/food",
            "/home/u/foolink",
            "/home/u/foo.txt"
        ]
    );
    assert_eq!(paths(&table.query("foo", 3)).len(), 3);
    assert_eq!(
        paths(&table.query("foo", 3)),
        vec!["/Applications/snafoo.app", "/Applications/foot.app", "/home/u/foo/notes"]
    );
    assert!(table.query("foo", 0).is_empty());
    assert!(table.query("absent", 100).is_empty());
    assert_eq!(table.query("", 100).len(), 8);
    assert_eq!(paths(&table.query("Foo", 100)), vec!["/Applications/Foo.app"]);
}

#[test]
fn a_lookup_answers_at_most_the_limit() {
    let mut table = Table::new();
    let batch: Vec<Entry> = (0..250)
        .map(|i| entry(&format!("file{}", i), &format!("/d/file{}", i), EntryKind::File, i))
        .collect();
    table.upsert_all(batch);
    let found = table.query("file", RESULT_LIMIT);
    assert_eq!(found.len(), 100);
    assert_eq!(found[0].atime, 249);
    assert_eq!(found[99].atime, 150);
    for pair in found.windows(2) {
        assert!(pair[0].atime >= pair[1].atime);
    }
}

#[test]
fn the_cache_starts_stale_and_sweeps_once() {
    let mut cache = Cache::new();
    assert_eq!(cache.status(), CacheStatus::Outdated);
    assert!(!cache.get_cache_status());
    assert_eq!(cache.root(), None);
    let first = cache.cache_file_system(false, false);
    assert!(matches!(&first, Refresh::Sweep(plan) if plan.root.is_none() && !plan.overwrite));
    assert_eq!(cache.status(), CacheStatus::Updating);
    assert!(matches!(cache.cache_file_system(false, false), Refresh::InFlight));
    assert!(matches!(cache.cache_file_system(true, true), Refresh::InFlight));
    let done = cache.complete(Ok(vec![entry("a", "/a", EntryKind::File, 1)]));
    assert_eq!(done, Completion::Committed);
    assert_eq!(cache.status(), CacheStatus::Updated);
    assert!(cache.get_cache_status());
    assert!(matches!(cache.cache_file_system(false, false), Refresh::Fresh));
    assert_eq!(cache.status(), CacheStatus::Updated);
    assert_eq!(paths(&cache.rows()), vec!["/a"]);
}

#[test]
fn a_failed_store_reverts_the_cache() {
    let mut cache = Cache::new();
    cache.update_cache_states(vec![entry("old", "/old", EntryKind::File, 1)]);
    assert_eq!(cache.status(), CacheStatus::Updated);
    assert!(matches!(cache.cache_file_system(true, false), Refresh::Sweep(_)));
    assert_eq!(cache.complete(Err(StoreError::Transaction)), Completion::Reverted(StoreError::Transaction));
    assert_eq!(cache.status(), CacheStatus::Outdated);
    assert_eq!(paths(&cache.rows()), vec!["/old"]);
    assert_eq!(cache.complete(Ok(Vec::new())), Completion::Ignored);
    assert_eq!(cache.status(), CacheStatus::Outdated);
    assert!(matches!(cache.cache_file_system(false, false), Refresh::Sweep(_)));
}

#[test]
fn rows_in_the_store_are_trusted_at_start() {
    let mut cache = Cache::new();
    let refresh = cache.init(vec![entry("kept", "/kept", EntryKind::File, 1)]);
    assert!(matches!(refresh, Refresh::Fresh));
    assert_eq!(cache.status(), CacheStatus::Updated);
    assert_eq!(paths(&cache.query("kept", 10)), vec!["/kept"]);

    let mut empty = Cache::new();
    assert!(matches!(empty.init(Vec::new()), Refresh::Sweep(_)));
    assert_eq!(empty.status(), CacheStatus::Updating);
}

#[test]
fn a_forced_refresh_without_overwrite_keeps_rows_that_the_sweep_missed() {
    let mut cache = Cache::new();
    cache.update_cache_states(vec![
        entry("a", "/a", EntryKind::File, 1),
        entry("b", "/b", EntryKind::File, 1),
    ]);
    let generation = cache.generation();
    assert!(matches!(cache.cache_file_system(true, false), Refresh::Sweep(plan) if !plan.overwrite));
    assert_eq!(cache.rows().len(), 2);
    cache.complete(Ok(vec![entry("b new", "/b", EntryKind::File, 9)]));
    let mut names: Vec<String> = cache.rows().iter().map(|row| row.name.clone()).collect();
    names.sort();
    assert_eq!(names, vec!["a", "b new"]);
    assert_ne!(cache.generation(), generation);
}

#[test]
fn another_root_drops_the_previous_index() {
    let mut cache = Cache::new();
    assert!(matches!(
        cache.reconfigure("/home/old"),
        Refresh::Sweep(plan) if plan.root.as_deref() == Some("/home/old") && plan.overwrite
    ));
    cache.complete(Ok(vec![
        entry("a", "/home/old/a", EntryKind::File, 1),
        entry("b", "/home/old/b", EntryKind::File, 2),
    ]));
    assert_eq!(cache.root(), Some("/home/old"));
    assert!(matches!(cache.reconfigure("/home/old"), Refresh::Fresh));
    assert_eq!(cache.rows().len(), 2);
    assert!(matches!(
        cache.reconfigure("/home/new"),
        Refresh::Sweep(plan) if plan.root.as_deref() == Some("/home/new") && plan.overwrite
    ));
    assert_eq!(cache.status(), CacheStatus::Updating);
    assert!(cache.rows().is_empty());
    assert!(matches!(cache.reconfigure("/home/other"), Refresh::InFlight));
    assert_eq!(cache.root(), Some("/home/new"));
    cache.complete(Ok(vec![entry("c", "/home/new/c", EntryKind::File, 3)]));
    assert_eq!(paths(&cache.rows()), vec!["/home/new/c"]);
    assert!(cache.query("old", 100).is_empty());
    assert_eq!(cache.status(), CacheStatus::Updated);
}

#[test]
fn cache_entries_name_what_they_cache() {
    let entry = CacheEntry { kind: CacheType::Filesystem, status: CacheStatus::Outdated };
    assert_eq!(entry.kind, CacheType::Filesystem);
    assert_eq!(entry.status, CacheStatus::Outdated);
}

#[test]
fn the_provider_follows_its_root_and_answers_from_the_index() {
    let mut plugin = FsPlugin::new("/home/u");
    plugin.init();
    let config = plugin.get_config();
    assert_eq!(config.get("path"), Some("/home/u"));
    let first = plugin.start("foo", &config, true).unwrap();
    assert!(first.is_empty());
    let plan = plugin.take_sweep().unwrap();
    assert_eq!(plan.root.as_deref(), Some("/home/u"));
    assert!(plan.overwrite);
    assert!(plugin.take_sweep().is_none());
    assert!(plugin.start("foo", &config, false).is_none());
    let done = plugin.complete(Ok(vec![
        entry("foo.txt", "/home/u/foo.txt", EntryKind::File, 1),
        entry("foo", "/home/u/foo", EntryKind::Directory, 2),
        entry("Foo.app", "/Applications/foo.app", EntryKind::Application, 0),
        entry("foolink", "/home/u/foolink", EntryKind::Symlink, 3),
        entry("bar", "/home/u/bar", EntryKind::File, 9),
    ]));
    assert_eq!(done, Completion::Committed);
    let answer = plugin.start("foo", &config, false).unwrap();
    let titles: Vec<&str> = answer.iter().map(|result| result.title()).collect();
    assert_eq!(titles, vec!["Foo.app", "foolink", "foo", "foo.txt"]);
    assert_eq!(answer[0].icon(), None);
    assert!(matches!(answer[0].action(), Some(Action::LaunchApplication(path)) if path == "/Applications/foo.app"));
    assert_eq!(answer[1].icon(), None);
    assert!(answer[1].action().is_none());
    assert_eq!(answer[2].icon(), Some(Icon::Folder));
    assert!(matches!(answer[2].action(), Some(Action::Open(path)) if path == "/home/u/foo"));
    assert_eq!(answer[3].icon(), Some(Icon::File));
    assert!(matches!(answer[3].action(), Some(Action::Open(path)) if path == "/home/u/foo.txt"));
    assert!(answer.iter().all(|result| result.priority() == RESULT_PRIORITY));
    assert!(plugin.start("foo", &config, false).is_none());
    assert_eq!(plugin.start("foo", &config, true).unwrap().len(), 4);
    assert_eq!(plugin.start("bar", &config, false).unwrap().len(), 1);
    assert!(plugin.start("bar", &config, false).is_none());
    assert_eq!(plugin.start("foo", &config, false).unwrap().len(), 4);
    assert_eq!(plugin.get_files("bar").len(), 1);

    let mut moved = Settings::new();
    moved.set("path", "/srv");
    assert!(plugin.start("foo", &moved, false).unwrap().is_empty());
    let next = plugin.take_sweep().unwrap();
    assert_eq!(next.root.as_deref(), Some("/srv"));
    assert_eq!(plugin.complete(Err(StoreError::Connection)), Completion::Reverted(StoreError::Connection));
    assert_eq!(plugin.cache().status(), CacheStatus::Outdated);
    assert!(plugin.start("foo", &moved, false).is_none());
    assert!(plugin.take_sweep().is_none());
}

#[test]
fn the_provider_presents_itself() {
    let plugin = FsPlugin::new("/home/u");
    let metadata = plugin.get_metadata();
    assert_eq!(metadata.name, "FS Walk");
    assert_eq!(metadata.description, "A plugin to traverse the filesystem");
    assert_eq!(RESULT_LIMIT, 100);
}

#[test]
fn the_provider_loads_what_the_store_held() {
    let mut plugin = FsPlugin::new("/home/u");
    plugin.load(vec![entry("kept", "/home/u/kept", EntryKind::File, 1)]);
    assert!(plugin.take_sweep().is_none());
    assert_eq!(plugin.cache().status(), CacheStatus::Updated);
    assert_eq!(plugin.get_files("kept").len(), 1);
    let mut fresh = FsPlugin::new("/home/u");
    fresh.load(Vec::new());
    assert!(matches!(fresh.take_sweep(), Some(plan) if plan.root.is_none() && !plan.overwrite));
}

#[test]
fn the_store_is_kept_where_it_is_asked_for() {
    let home = || Home::At("/home/u".to_string());
    assert_eq!(
        Db::get_database_url(Some("custom.sqlite".to_string()), Some("env.sqlite".to_string()), home()),
        Some("custom.sqlite".to_string())
    );
    assert_eq!(
        Db::get_database_url(None, Some("env.sqlite".to_string()), home()),
        Some("env.sqlite".to_string())
    );
    assert_eq!(
        Db::get_database_url(None, None, home()),
        Some("/home/u/.config/fin/cache.sqlite".to_string())
    );
    assert_eq!(
        Db::get_database_url(None, None, Home::At("/".to_string())),
        Some("/.config/fin/cache.sqlite".to_string())
    );
    assert_eq!(
        Db::get_database_url(None, None, Home::At(String::new())),
        Some(".config/fin/cache.sqlite".to_string())
    );
    assert_eq!(Db::get_database_url(None, None, Home::NotText), None);
    assert_eq!(
        Db::get_database_url(None, None, Home::Missing),
        Some("sqlite:cache.sqlite".to_string())
    );
    let mut db = Db::new();
    assert_eq!(db.connection_url, None);
    db.init(None, None, Home::Missing);
    assert_eq!(db.connection_url.as_deref(), Some("sqlite:cache.sqlite"));
    assert_eq!(Db::join("/a/b", "c"), "/a/b/c");
    assert_eq!(Db::join("/a/b/", "c"), "/a/b/c");
}

#[test]
fn a_failed_connection_waits_longer_each_time() {
    assert_eq!(Db::retry_delay_ms(0), 100);
    assert_eq!(Db::retry_delay_ms(1), 200);
    assert_eq!(Db::retry_delay_ms(2), 400);
    assert_eq!(Db::retry_delay_ms(8), 25_600);
    assert_eq!(Db::retry_delay_ms(9), LONGEST_RETRY_DELAY_MS);
    assert_eq!(Db::retry_delay_ms(u32::MAX), 30_000);
    assert_eq!(CONNECTION_ATTEMPTS, 8);
    assert_eq!(Db::retry_after(0), Some(100));
    assert_eq!(Db::retry_after(3), Some(800));
    assert_eq!(Db::retry_after(6), Some(6_400));
    assert_eq!(Db::retry_after(7), None);
    assert_eq!(Db::retry_after(u32::MAX), None);
}

#[test]
fn a_response_shows_name_path_and_kind() {
    let response = EntryResponse::from_entry(&entry("a", "/a", EntryKind::Symlink, 5));
    assert_eq!(response.name, "a");
    assert_eq!(response.path, "/a");
    assert_eq!(response.kind, EntryKind::Symlink);
}

#[test]
fn settings_keep_the_first_place_of_a_key() {
    let mut settings = Settings::new();
    assert_eq!(settings.get("path"), None);
    settings.set("path", "/a");
    settings.set("theme", "dark");
    settings.set("path", "/b");
    assert_eq!(settings.len(), 2);
    assert_eq!(settings.get("path"), Some("/b"));
    assert_eq!(settings.get("theme"), Some("dark"));
    assert_eq!(settings.get("Path"), None);
    let copy = settings.duplicate();
    settings.set("theme", "light");
    assert_eq!(copy.get("theme"), Some("dark"));
}

#[test]
fn the_config_reads_the_users_file_where_there_is_one() {
    let mut config = Config::new();
    assert_eq!(config.get_source(), "./assets/default-config.toml");
    assert_eq!(config.get("path"), None);
    config.set_source("/res/assets/default-config.toml".to_string(), None);
    assert_eq!(config.get_source(), "/res/assets/default-config.toml");
    config.set_source(
        "/res/assets/default-config.toml".to_string(),
        Some("/home/u/.config/fin/fin.toml".to_string()),
    );
    assert_eq!(config.get_source(), "/home/u/.config/fin/fin.toml");
    assert_eq!(
        config.load_config("theme = \"dark\"\npath = \"/home/u\"\n\"FS Walk.path\" = \"/srv\"\n"),
        Ok(())
    );
    assert_eq!(config.get("path"), Some("/home/u"));
    assert_eq!(config.get("theme"), Some("dark"));
    assert_eq!(config.get("FS Walk.path"), Some("/srv"));
    assert_eq!(config.get("missing"), None);
    assert_eq!(config.load_config("path = 5"), Err(ConfigError::Invalid));
    assert_eq!(config.load_config("path = "), Err(ConfigError::Invalid));
    assert_eq!(config.load_config("[table]\nkey = \"value\""), Err(ConfigError::Invalid));
    assert_eq!(config.get("path"), Some("/home/u"));
    assert_eq!(config.load_config(""), Ok(()));
    assert_eq!(config.get("path"), None);
    assert_eq!(config.get_source(), "/home/u/.config/fin/fin.toml");
}

#[test]
fn settings_take_pairs_in_order() {
    let mut settings = Settings::new();
    settings.set("a", "1");
    settings.extend(&vec![
        ("b".to_string(), "2".to_string()),
        ("a".to_string(), "3".to_string()),
        ("b".to_string(), "4".to_string()),
    ]);
    assert_eq!(settings.len(), 2);
    assert_eq!(settings.get("a"), Some("3"));
    assert_eq!(settings.get("b"), Some("4"));
}
