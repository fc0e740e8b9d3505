use tiak_core::config::{Config, DEFAULT_DB_PATH, DEFAULT_SERVER_PORT};

fn some(s: &str) -> Option<String> {
    Some(s.to_string())
}

#[test]
fn unset_values_stand_for_their_defaults() {
    let config = Config::from_values(None, None, None).unwrap();
    assert_eq!(config.db_path, "data/jobs.sqlite");
    assert_eq!(config.server_port, 4697);
    assert_eq!(config.allowed_origins, Vec::<String>::new());
    assert_eq!(DEFAULT_DB_PATH, "data/jobs.sqlite");
    assert_eq!(DEFAULT_SERVER_PORT, 4697);
}

#[test]
fn set_values_are_taken() {
    let config = Config::from_values(
        some("/var/jobs.db"),
        some("8080"),
        some("https://a.example, https://b.example ,,  ,https://c.example"),
    )
    .unwrap();
    assert_eq!(config.db_path, "/var/jobs.db");
    assert_eq!(config.server_port, 8080);
    assert_eq!(
        config.allowed_origins,
        vec!["https://a.example", "https://b.example", "https://c.example"]
    );
    assert_eq!(config.clone(), config);
}

#[test]
fn a_port_must_be_a_number_of_sixteen_bits() {
    assert_eq!(Config::from_values(None, some("0"), None).unwrap().server_port, 0);
    assert_eq!(Config::from_values(None, some("65535"), None).unwrap().server_port, 65535);
    assert_eq!(Config::from_values(None, some("+80"), None).unwrap().server_port, 80);
    assert_eq!(Config::from_values(None, some("65536"), None), None);
    assert_eq!(Config::from_values(None, some(""), None), None);
    assert_eq!(Config::from_values(None, some("http"), None), None);
    assert_eq!(Config::from_values(None, some(" 80"), None), None);
    assert_eq!(Config::from_values(None, some("-1"), None), None);
}

#[test]
fn an_empty_list_of_origins_allows_none() {
    assert!(Config::from_values(None, None, some("")).unwrap().allowed_origins.is_empty());
    assert!(Config::from_values(None, None, some(" , ,")).unwrap().allowed_origins.is_empty());
    assert_eq!(
        Config::from_values(None, None, some("*")).unwrap().allowed_origins,
        vec!["*"]
    );
}
