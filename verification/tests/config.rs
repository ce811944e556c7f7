use qreview::config::{join, load, Config, GerritLayer, Layer, SeriesLayer, DiffLayer, UiLayer};
use qreview::lang::Table;

fn batch(size: usize) -> Layer {
    Layer {
        series: Some(SeriesLayer { batch_size: Some(size), ..Default::default() }),
        ..Default::default()
    }
}

fn gerrit(enabled: bool) -> Layer {
    Layer {
        gerrit: Some(GerritLayer { enabled: Some(enabled), ..Default::default() }),
        ..Default::default()
    }
}

fn languages(pairs: &[(&str, &str)]) -> Layer {
    let mut table = Table::new();
    for (k, v) in pairs {
        table.insert((*k).to_owned(), (*v).to_owned());
    }
    Layer { languages: Some(table), ..Default::default() }
}

#[test]
fn the_defaults_stand_on_their_own() {
    let config = Config::default();

    assert!(config.gerrit.enabled);
    assert_eq!(config.series.guess_max, 10);
    assert_eq!(config.series.batch_size, 5);
    assert_eq!(config.ui.diff, "unified");
}

#[test]
fn a_layer_changes_only_what_it_names() {
    let mut config = Config::default();
    config.apply(batch(10));

    assert_eq!(config.series.batch_size, 10);
    assert_eq!(config.series.guess_max, 10, "untouched");
    assert!(config.gerrit.enabled, "untouched");
}

#[test]
fn the_later_layer_wins() {
    let mut config = Config::default();
    config.apply(gerrit(false));
    config.apply(gerrit(true));

    assert!(config.gerrit.enabled);
}

#[test]
fn language_maps_are_merged_and_not_replaced() {
    let mut config = Config::default();
    config.apply(languages(&[("aa", "c")]));
    config.apply(languages(&[(".BB", "python")]));

    assert_eq!(config.languages.get("aa").map(String::as_str), Some("c"));
    assert_eq!(
        config.languages.get("bb").map(String::as_str),
        Some("python"),
        "a leading dot and the case are both allowed"
    );
}

#[test]
fn the_repository_layer_is_applied_after_the_user_one() {
    let user = Layer {
        ui: Some(UiLayer { diff: Some("unified".to_owned()), ..Default::default() }),
        ..Default::default()
    };
    let mut repo = languages(&[("zz", "yaml")]);
    repo.ui = Some(UiLayer { diff: Some("side-by-side".to_owned()), ..Default::default() });

    let config = load(vec![user, repo]);
    assert_eq!(config.languages.get("zz").map(String::as_str), Some("yaml"));
    assert_eq!(config.ui.diff, "side-by-side");
}

#[test]
fn applying_a_layer_twice_is_applying_it_once() {
    let layer = Layer {
        diff: Some(DiffLayer { context: Some(7), syntax: Some(false), ..Default::default() }),
        ..batch(3)
    };
    let mut once = Config::default();
    once.apply(layer.clone());
    let mut twice = once.clone();
    twice.apply(layer);

    assert_eq!(once, twice);
    assert_eq!(once.diff.context, 7);
    assert!(!once.diff.syntax);
}

#[test]
fn a_path_part_is_joined_with_one_slash() {
    assert_eq!(join("/home/me", ".config"), "/home/me/.config");
    assert_eq!(join("/home/me/", ".config"), "/home/me/.config");
}

use qreview::config::{grammar_dir, user_path};

#[test]
fn the_file_of_the_user_is_under_the_configuration_directory() {
    assert_eq!(user_path(Some("/xdg".to_owned()), Some("/home/u".to_owned())).as_deref(), Some("/xdg/qreview/config.json"));
    assert_eq!(user_path(Some(String::new()), Some("/home/u".to_owned())).as_deref(), Some("/home/u/.config/qreview/config.json"));
    assert_eq!(user_path(None, None), None);
    assert_eq!(grammar_dir(None, Some("/home/u".to_owned())).as_deref(), Some("/home/u/.config/qreview/grammars"));
}
