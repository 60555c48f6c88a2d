use geoip::cli::{should_update_database, Cli, Command, DEFAULT_BIND, DEFAULT_DB_PATH};

#[test]
fn updates_when_requested_or_database_is_missing() {
    let missing_path_exists = false;
    let existing_path_exists = true;

    assert!(should_update_database(true, existing_path_exists));
    assert!(should_update_database(false, missing_path_exists));
    assert!(!should_update_database(false, existing_path_exists));
}

#[test]
fn defaults_match_the_documented_values() {
    assert_eq!(DEFAULT_BIND, "0.0.0.0:5000");
    assert_eq!(DEFAULT_DB_PATH, "data/GeoLite2-City.mmdb");
    let cli = Cli {
        command: Command::Download {
            db_path: DEFAULT_DB_PATH.to_string(),
        },
    };
    assert_eq!(
        cli.command,
        Command::Download {
            db_path: "data/GeoLite2-City.mmdb".to_string()
        }
    );
}
