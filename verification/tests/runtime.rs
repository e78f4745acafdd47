use fin::config::Settings;
use fin::plugin_api::result::SearchResult;
use fin::plugin_api::{Lifecycle, Metadata, Plugin, PluginManager, RegistrationError};

/// A provider that answers every query with one result that names it and the
/// query, and counts how often it was called.
struct Echo {
    name: String,
    prepared: bool,
    released: bool,
    calls: usize,
    last: Option<String>,
}

impl Echo {
    fn new(name: &str) -> Echo {
        Echo { name: name.to_string(), prepared: false, released: false, calls: 0, last: None }
    }
}

impl Plugin for Echo {
    fn init(&mut self) {
        self.prepared = true;
    }

    fn start(&mut self, query: &str, config: &Settings, new_round: bool) -> Option<Vec<SearchResult>> {
        assert!(self.prepared && !self.released);
        self.calls += 1;
        let suffix = config.get("suffix").unwrap_or("");
        let title = format!("{}: {}{}", self.name, query, suffix);
        if !new_round && self.last.as_deref() == Some(title.as_str()) {
            return None;
        }
        self.last = Some(title.clone());
        Some(vec![SearchResult::new(title, None, None, None, None)])
    }

    fn get_metadata(&self) -> Metadata {
        Metadata {
            name: self.name.clone(),
            description: "echoes the query".to_string(),
            icon: None,
            url: Some("https://example.org".to_string()),
        }
    }

    fn get_config(&self) -> Settings {
        let mut config = Settings::new();
        config.set("owner", &self.name);
        config
    }

    fn destroy(&mut self) {
        self.released = true;
    }
}

fn shown(manager: &PluginManager<Echo>) -> Vec<String> {
    manager.get_aggregated_results().iter().map(|result| result.title().to_string()).collect()
}

#[test]
fn a_duplicate_identifier_is_rejected() {
    let mut manager = PluginManager::new();
    assert_eq!(manager.register("echo".to_string(), Echo::new("first")), Ok(()));
    assert_eq!(
        manager.register("echo".to_string(), Echo::new("second")),
        Err(RegistrationError::Duplicate)
    );
    assert_eq!(manager.register("other".to_string(), Echo::new("third")), Ok(()));
    assert_eq!(manager.plugin_count(), 2);
    assert_eq!(manager.position("echo"), Some(0));
    assert_eq!(manager.position("other"), Some(1));
    assert_eq!(manager.position("missing"), None);
}

#[test]
fn providers_are_registered_before_the_start_only() {
    let mut manager = PluginManager::new();
    manager.register("a".to_string(), Echo::new("a")).unwrap();
    assert!(!manager.is_running());
    manager.start_all();
    assert!(manager.is_running());
    assert_eq!(
        manager.register("b".to_string(), Echo::new("b")),
        Err(RegistrationError::AlreadyStarted)
    );
    assert_eq!(
        manager.register("a".to_string(), Echo::new("a")),
        Err(RegistrationError::AlreadyStarted)
    );
    assert_eq!(manager.init(vec![Echo::new("c")]), Err(RegistrationError::AlreadyStarted));
    assert_eq!(manager.plugin_count(), 1);
}

#[test]
fn init_registers_under_the_metadata_name_and_starts() {
    let mut manager = PluginManager::new();
    assert_eq!(manager.init(vec![Echo::new("x"), Echo::new("y")]), Ok(()));
    assert!(manager.is_running());
    let loaded = manager.get_plugins();
    assert_eq!(loaded.len(), 2);
    assert_eq!(loaded[0].0, "x");
    assert_eq!(loaded[0].1.metadata.name, "x");
    assert_eq!(loaded[0].1.metadata.description, "echoes the query");
    assert_eq!(loaded[0].1.metadata.url.as_deref(), Some("https://example.org"));
    assert_eq!(loaded[0].1.config.get("owner"), Some("x"));
    assert_eq!(loaded[1].0, "y");

    let mut clash = PluginManager::new();
    assert_eq!(
        clash.init(vec![Echo::new("x"), Echo::new("x"), Echo::new("z")]),
        Err(RegistrationError::Duplicate)
    );
    assert!(!clash.is_running());
    assert_eq!(clash.plugin_count(), 1);
}

#[test]
fn nothing_runs_before_the_start_or_after_the_end() {
    let mut manager = PluginManager::new();
    manager.register("a".to_string(), Echo::new("a")).unwrap();
    assert!(!manager.run_worker(0));
    manager.run_round();
    assert!(shown(&manager).is_empty());
    manager.start_all();
    assert!(manager.run_worker(0));
    assert!(!manager.run_worker(1));
    assert_eq!(shown(&manager), vec!["a: "]);
    manager.destroy_all();
    assert!(!manager.is_running());
    manager.update_search_query("late".to_string());
    assert!(!manager.run_worker(0));
    assert!(shown(&manager).is_empty());
    manager.start_all();
    assert!(!manager.is_running());
}

#[test]
fn a_worker_merges_only_what_changed() {
    let mut manager = PluginManager::new();
    manager.init(vec![Echo::new("a"), Echo::new("b")]).unwrap();
    manager.update_search_query("q".to_string());
    manager.run_round();
    assert_eq!(shown(&manager), vec!["a: q", "b: q"]);
    assert!(!manager.run_worker(0));
    assert!(!manager.run_worker(1));
    assert_eq!(shown(&manager), vec!["a: q", "b: q"]);
    assert!(manager.configure("a", "suffix", "!"));
    assert!(!manager.configure("c", "suffix", "!"));
    assert!(manager.run_worker(0));
    assert_eq!(shown(&manager), vec!["b: q", "a: q!"]);
}

#[test]
fn a_new_query_is_answered_again_even_if_the_answer_is_the_same() {
    let mut manager = PluginManager::new();
    manager.init(vec![Echo::new("a")]).unwrap();
    manager.update_search_query("same".to_string());
    manager.run_round();
    assert_eq!(shown(&manager), vec!["a: same"]);
    manager.update_search_query("same".to_string());
    assert!(shown(&manager).is_empty());
    assert_eq!(manager.get_client_state().get_search_query(), "same");
    manager.run_round();
    assert_eq!(shown(&manager), vec!["a: same"]);
}

#[test]
fn workers_in_any_interleaving_lose_no_contribution() {
    let count = 8;
    let mut seed: u64 = 0x2545_f491_4f6c_dd1d;
    for _ in 0..20 {
        let mut manager = PluginManager::new();
        let plugins: Vec<Echo> = (0..count).map(|i| Echo::new(&format!("p{}", i))).collect();
        manager.init(plugins).unwrap();
        manager.update_search_query("race".to_string());
        let mut waiting: Vec<usize> = (0..count).collect();
        while !waiting.is_empty() {
            seed = seed.wrapping_mul(6364136223846793005).wrapping_add(1442695040888963407);
            let pick = (seed >> 33) as usize % waiting.len();
            let index = waiting.swap_remove(pick);
            manager.run_worker(index);
            seed = seed.wrapping_mul(6364136223846793005).wrapping_add(1442695040888963407);
            let again = (seed >> 33) as usize % count;
            manager.run_worker(again);
        }
        let mut titles = shown(&manager);
        titles.sort();
        let mut expected: Vec<String> = (0..count).map(|i| format!("p{}: race", i)).collect();
        expected.sort();
        assert_eq!(titles, expected);
    }
}

#[test]
fn the_lifecycle_has_three_stages() {
    assert_ne!(Lifecycle::Uninitialized, Lifecycle::Running);
    assert_ne!(Lifecycle::Running, Lifecycle::Destroyed);
    assert_eq!(fin::plugin_api::WORKER_INTERVAL_MS, 100);
}

#[test]
fn defaults_are_the_empty_values() {
    let manager: PluginManager<Echo> = PluginManager::default();
    assert_eq!(manager.plugin_count(), 0);
    assert!(!manager.is_running());
    assert_eq!(manager.get_client_state().get_search_query(), "");
    assert!(manager.get_aggregated_results().is_empty());
    let hub = fin::plugin_api::hub::ClientState::default();
    assert_eq!(hub.round(), 0);
    assert!(hub.get_search_results().is_empty());
    let cache = fin::filesystem::cache::Cache::default();
    assert!(!cache.get_cache_status());
    assert!(cache.rows().is_empty());
    assert_eq!(cache.generation(), 0);
    assert_eq!(fin::filesystem::db::Db::default().connection_url, None);
    assert_eq!(fin::config::Config::default().get_source(), "./assets/default-config.toml");
    let mut calculator = fin::calculator::CalculatorPlugin::<i64>::default();
    assert!(calculator.contribution().is_empty());
    assert!(calculator.start("", &Settings::new(), false).is_none());
}

#[test]
fn an_answer_is_merged_for_a_running_provider_only() {
    let answer = |title: &str| Some(vec![SearchResult::new(title.to_string(), None, None, None, None)]);
    let mut manager = PluginManager::new();
    manager.register("a".to_string(), Echo::new("a")).unwrap();
    manager.register("b".to_string(), Echo::new("b")).unwrap();
    assert!(!manager.take_answer(0, answer("early")));
    assert!(shown(&manager).is_empty());
    manager.start_all();
    assert!(manager.take_answer(0, answer("first")));
    assert!(manager.take_answer(1, answer("other")));
    assert!(!manager.take_answer(2, answer("nobody")));
    assert!(!manager.take_answer(0, None));
    assert_eq!(shown(&manager), vec!["first", "other"]);
    assert!(manager.take_answer(0, answer("second")));
    assert_eq!(shown(&manager), vec!["other", "second"]);
    assert!(manager.take_answer(1, Some(Vec::new())));
    assert_eq!(shown(&manager), vec!["second"]);
    manager.destroy_all();
    assert!(!manager.take_answer(0, answer("late")));
    assert_eq!(shown(&manager), vec!["second"]);
}

#[test]
fn the_first_step_of_a_round_always_merges() {
    let mut manager = PluginManager::new();
    manager.init(vec![Echo::new("a")]).unwrap();
    manager.update_search_query("q".to_string());
    assert!(manager.run_worker(0));
    assert!(!manager.run_worker(0));
    manager.update_search_query("q".to_string());
    assert!(!manager.take_answer(0, None));
    assert!(!manager.run_worker(0));
    assert!(shown(&manager).is_empty());
    manager.update_search_query("q".to_string());
    assert!(manager.run_worker(0));
    assert_eq!(shown(&manager), vec!["a: q"]);
}
