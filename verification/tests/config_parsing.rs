use multicast::config::{parse_config, Config, ConfigError};

fn lines(ls: &[&str]) -> Vec<String> {
    ls.iter().map(|l| l.to_string()).collect()
}

#[test]
fn parse_config_assigns_ids_in_order() {
    let file = lines(&["3", "n0 hostA 4000", "n1 hostB 4001", "n2 hostC 4002"]);
    let (config, id) = parse_config(&file, "n1").expect("well-formed file");
    assert_eq!(id, 1);
    assert_eq!(config.len(), 3);
    let c0 = config.get(0).unwrap();
    assert_eq!(c0.node_id, 0);
    assert_eq!(c0.hostname, "hostA");
    assert_eq!(c0.port, 4000);
    let c2 = config.get(2).unwrap();
    assert_eq!(c2.hostname, "hostC");
    assert_eq!(c2.port, 4002);
    assert!(config.get(3).is_none());
}

#[test]
fn parse_config_error_cases() {
    assert_eq!(parse_config(&lines(&[]), "n0").unwrap_err(), ConfigError::MissingNodeCount);
    assert_eq!(parse_config(&lines(&["x"]), "n0").unwrap_err(), ConfigError::BadNodeCount);
    assert_eq!(parse_config(&lines(&["2 3"]), "n0").unwrap_err(), ConfigError::BadNodeCount);
    assert_eq!(
        parse_config(&lines(&["1", "n0 host"]), "n0").unwrap_err(),
        ConfigError::BadLine(1)
    );
    assert_eq!(
        parse_config(&lines(&["1", "n0 host seventy"]), "n0").unwrap_err(),
        ConfigError::BadPort(1)
    );
    assert_eq!(
        parse_config(&lines(&["1", "n0 host 70000"]), "n0").unwrap_err(),
        ConfigError::BadPort(1)
    );
    assert_eq!(
        parse_config(&lines(&["1", "n0 host 4000"]), "other").unwrap_err(),
        ConfigError::UnknownNode
    );
    assert_eq!(
        parse_config(&lines(&["2", "n0 host 4000"]), "n0").unwrap_err(),
        ConfigError::CountMismatch
    );
}

#[test]
fn connection_list_is_all_lower_ids() {
    let list = Config::get_connection_list(3);
    assert_eq!(list, vec![0, 1, 2]);
    assert_eq!(Config::get_connection_list(0), Vec::<usize>::new());
}

#[test]
fn config_builds_incrementally() {
    let mut config = Config::new();
    assert_eq!(config.len(), 0);
    let a = config.add_node("h0".to_string(), 1000);
    let b = config.add_node("h1".to_string(), 1001);
    assert_eq!((a, b), (0, 1));
    assert_eq!(config.len(), 2);
    assert_eq!(config.get(1).unwrap().hostname, "h1");
}
