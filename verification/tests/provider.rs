use fin::calculator::{CalculatorPlugin, ComputationError};
use fin::config::Settings;
use fin::plugin_api::result::{Action, Icon, SearchResult};
use fin::plugin_api::Plugin;

fn titles(results: &[SearchResult]) -> Vec<String> {
    results.iter().map(|result| result.title().to_string()).collect()
}

#[test]
fn calculator_contributes_the_value_of_the_query() {
    let mut plugin = CalculatorPlugin::<i64>::new();
    plugin.init();
    let answer = plugin.start("6*7", &Settings::new(), true).unwrap();
    assert_eq!(answer.len(), 1);
    assert_eq!(answer[0].title(), "= 42");
    assert_eq!(answer[0].description(), None);
    assert_eq!(answer[0].icon(), Some(Icon::Copy));
    assert!(matches!(answer[0].action(), Some(Action::Copy(text)) if text == "42"));
    assert_eq!(answer[0].priority(), 10);
}

#[test]
fn calculator_skips_a_write_that_changes_nothing() {
    let mut plugin = CalculatorPlugin::<i64>::new();
    let config = Settings::new();
    assert_eq!(titles(&plugin.start("1+1", &config, true).unwrap()), vec!["= 2"]);
    assert!(plugin.start("1+1", &config, false).is_none());
    assert!(plugin.start("2", &config, false).is_none());
    assert_eq!(titles(&plugin.start("2+1", &config, false).unwrap()), vec!["= 3"]);
    assert_eq!(titles(&plugin.start("2+1", &config, true).unwrap()), vec!["= 3"]);
}

#[test]
fn calculator_clears_its_contribution_when_the_query_has_no_value() {
    let mut plugin = CalculatorPlugin::<i64>::new();
    let config = Settings::new();
    assert!(plugin.start("hello", &config, true).unwrap().is_empty());
    assert!(plugin.start("hello", &config, false).is_none());
    assert_eq!(titles(&plugin.start("4", &config, false).unwrap()), vec!["= 4"]);
    assert!(plugin.start("(4", &config, false).unwrap().is_empty());
    assert!(plugin.start("4)", &config, false).is_none());
}

#[test]
fn calculator_responds_to_each_outcome() {
    let mut plugin = CalculatorPlugin::<i64>::new();
    assert!(plugin.respond(Err(ComputationError::Incomplete), false).is_none());
    assert_eq!(titles(&plugin.respond(Ok(-3), false).unwrap()), vec!["= -3"]);
    assert!(plugin.respond(Ok(-3), false).is_none());
    assert!(plugin.respond(Err(ComputationError::Arithmetic), false).unwrap().is_empty());
    assert!(plugin.respond(Err(ComputationError::Unbalanced), true).unwrap().is_empty());
    assert_eq!(titles(&plugin.contribution()), Vec::<String>::new());
}

#[test]
fn calculator_presents_itself() {
    let plugin = CalculatorPlugin::<i64>::new();
    let metadata = plugin.get_metadata();
    assert_eq!(metadata.name, "Calculator");
    assert_eq!(metadata.description, "A calculator plugin");
    assert_eq!(metadata.icon, None);
    assert_eq!(metadata.url, None);
    assert_eq!(plugin.get_config().len(), 0);
}
