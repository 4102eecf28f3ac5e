use csv_editor::config::{config_text, load_config, openers_within_bound, ConfigError, StoreDirs, DEFAULT_CONFIG, MAX_OPENERS};

#[test]
fn default_config_resolves_program_dir() {
    let text = config_text(String::new());
    assert_eq!(text, DEFAULT_CONFIG);
    let dirs = load_config(&text, "/opt/app").unwrap();
    assert_eq!(
        dirs,
        StoreDirs {
            master_directory: "/opt/app/data/master_csv/".to_string(),
            archive_directory: "/opt/app/data/history/".to_string(),
        }
    );
}

#[test]
fn found_config_is_kept() {
    let found = "[master]\ndirectory = \"m\"\nhistory = \"h\"\n".to_string();
    assert_eq!(config_text(found.clone()), found);
    let dirs = load_config(&found, "/x").unwrap();
    assert_eq!(dirs.master_directory, "m");
    assert_eq!(dirs.archive_directory, "h");
}

#[test]
fn config_errors() {
    assert_eq!(load_config("not = [toml", "/x"), Err(ConfigError::MissingMaster));
    assert_eq!(load_config("[other]\ndirectory = \"m\"\n", "/x"), Err(ConfigError::MissingMaster));
    assert_eq!(load_config("[master]\ndirectory = \"m\"\n", "/x"), Err(ConfigError::MissingHistory));
    assert_eq!(load_config("[master]\ndirectory = 3\nhistory = \"h\"\n", "/x"), Err(ConfigError::MissingMaster));
}

#[test]
fn deeply_nested_config_is_refused() {
    let deep = format!("[master]\ndirectory = {}1{}\n", "[".repeat(50_000), "]".repeat(50_000));
    assert_eq!(load_config(&deep, "/x"), Err(ConfigError::TooNested));
    let program_dir = "[".repeat(MAX_OPENERS);
    assert_eq!(load_config("[master]\ndirectory = \"{CUR}\"\n", &program_dir), Err(ConfigError::TooNested));
}

#[test]
fn opener_bound_counts_brackets_and_braces() {
    assert!(openers_within_bound(&"[{".repeat(MAX_OPENERS / 2)));
    assert!(!openers_within_bound(&format!("{}{{", "[".repeat(MAX_OPENERS))));
    assert!(openers_within_bound("no brackets at all"));
}
