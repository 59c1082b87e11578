use filmilhoes::config::{
    config_from_fields, config_from_text, empty_config, parse_size, resolve, size_of_text, CliOptions, ConfigError, ConfigValue,
};

fn cli(number: Option<usize>, min_size: Option<u64>, exclude: &[&str]) -> CliOptions {
    CliOptions { number, min_size, exclude: exclude.iter().map(|s| s.to_string()).collect() }
}

#[test]
fn size_expressions() {
    assert_eq!(parse_size("100MB"), Ok(100_000_000));
    assert_eq!(parse_size("2GB"), Ok(2_000_000_000));
    assert_eq!(parse_size("1KiB"), Ok(1024));
    assert_eq!(parse_size("3 MiB"), Ok(3 * 1024 * 1024));
    assert_eq!(parse_size("abc"), Err(ConfigError::BadSize));
    assert_eq!(parse_size("100"), Err(ConfigError::BadSize));
    assert_eq!(parse_size(""), Err(ConfigError::BadSize));
}

#[test]
fn cli_number_wins_over_file() {
    let file = config_from_text("files: 10").ok().unwrap();
    assert_eq!(resolve(cli(Some(3), None, &[]), file).n, 3);
}

#[test]
fn file_number_without_cli() {
    let file = config_from_text("files: 10").ok().unwrap();
    assert_eq!(resolve(cli(None, None, &[]), file).n, 10);
}

#[test]
fn default_number() {
    assert_eq!(resolve(cli(None, None, &[]), empty_config()).n, 1);
    let file = config_from_text("exclude: [tmp]").ok().unwrap();
    assert_eq!(resolve(cli(None, None, &[]), file).n, 1);
}

#[test]
fn exclusions_are_merged() {
    let file = config_from_text("exclude: [.git]").ok().unwrap();
    let s = resolve(cli(None, None, &["node_modules"]), file);
    let mut names = s.exclude.clone();
    names.sort();
    assert_eq!(names, vec![".git".to_string(), "node_modules".to_string()]);
}

#[test]
fn exclusions_are_kept_once() {
    let file = config_from_text("exclude: [.git, tmp]").ok().unwrap();
    let s = resolve(cli(None, None, &[".git", ".git"]), file);
    assert_eq!(s.exclude, vec![".git".to_string(), "tmp".to_string()]);
}

#[test]
fn min_size_precedence() {
    let file = config_from_text("minsize: 2MB").ok().unwrap();
    assert_eq!(file.min_size, Some(2_000_000));
    let s = resolve(cli(None, Some(5), &[]), file);
    assert_eq!(s.min_size, Some(5));
    let file = config_from_text("minsize: 2MB").ok().unwrap();
    assert_eq!(resolve(cli(None, None, &[]), file).min_size, Some(2_000_000));
    assert_eq!(resolve(cli(None, None, &[]), empty_config()).min_size, None);
}

#[test]
fn full_document() {
    let f = config_from_text("files: 4\nminsize: 1KiB\nexclude:\n  - a\n  - b\n").ok().unwrap();
    assert_eq!(f.files, Some(4));
    assert_eq!(f.min_size, Some(1024));
    assert_eq!(f.exclude, vec!["a".to_string(), "b".to_string()]);
}

#[test]
fn empty_document_sets_nothing() {
    let f = config_from_text("").ok().unwrap();
    assert_eq!(f.files, None);
    assert_eq!(f.min_size, None);
    assert!(f.exclude.is_empty());
}

#[test]
fn bad_files_values() {
    assert_eq!(config_from_text("files: 0").err(), Some(ConfigError::BadFiles));
    assert_eq!(config_from_text("files: -3").err(), Some(ConfigError::BadFiles));
    assert_eq!(config_from_text("files: many").err(), Some(ConfigError::BadFiles));
}

#[test]
fn bad_min_size_values() {
    assert_eq!(config_from_text("minsize: huge").err(), Some(ConfigError::BadMinSize));
    assert_eq!(config_from_text("minsize: 12").err(), Some(ConfigError::BadMinSize));
}

#[test]
fn bad_exclude_values() {
    assert_eq!(config_from_text("exclude: tmp").err(), Some(ConfigError::BadExclude));
    assert_eq!(config_from_text("exclude: [tmp, 3]").err(), Some(ConfigError::BadExclude));
}

#[test]
fn malformed_document() {
    assert_eq!(config_from_text("files: [1, 2").err(), Some(ConfigError::Malformed));
}

#[test]
fn first_bad_field_is_reported() {
    let r = config_from_fields(&ConfigValue::Other, &ConfigValue::Other, &ConfigValue::Other);
    assert_eq!(r.err(), Some(ConfigError::BadFiles));
    let r = config_from_fields(&ConfigValue::Missing, &ConfigValue::Integer(3), &ConfigValue::Other);
    assert_eq!(r.err(), Some(ConfigError::BadMinSize));
    let r = config_from_fields(&ConfigValue::Integer(2), &ConfigValue::Missing, &ConfigValue::List(vec![None]));
    assert_eq!(r.err(), Some(ConfigError::BadExclude));
    let r = config_from_fields(
        &ConfigValue::Integer(2),
        &ConfigValue::Text("1kB".to_string()),
        &ConfigValue::List(vec![Some("x".to_string())]),
    )
    .ok()
    .unwrap();
    assert_eq!(r.files, Some(2));
    assert_eq!(r.min_size, Some(1000));
    assert_eq!(r.exclude, vec!["x".to_string()]);
}

#[test]
fn non_ascii_sizes_are_rejected() {
    assert_eq!(parse_size("\u{bd}MB"), Err(ConfigError::BadSize));
    assert_eq!(parse_size("\u{661}x"), Err(ConfigError::BadSize));
    assert_eq!(size_of_text("\u{bd}MB"), None);
    assert_eq!(size_of_text("2kB"), Some(2000));
    assert_eq!(config_from_text("minsize: \"\u{bd}MB\"").err(), Some(ConfigError::BadMinSize));
}
