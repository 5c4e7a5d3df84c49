use redis_lite::parsers::args_parse::parse;
use redis_lite::store::{map_config_get, Store};

fn args(items: &[&str]) -> Vec<String> {
    items.iter().map(|s| s.to_string()).collect()
}

#[test]
fn flags_set_configuration() {
    let mut store = Store::new();
    let a = args(&["server", "--dir", "/tmp/data", "--dbfilename", "dump.rdb", "--port", "6380"]);
    assert!(parse(&mut store, &a).is_ok());
    assert_eq!(map_config_get(&store, "dir".to_string()), Some("/tmp/data".to_string()));
    assert_eq!(map_config_get(&store, "dbfilename".to_string()), Some("dump.rdb".to_string()));
    assert_eq!(map_config_get(&store, "port".to_string()), Some("6380".to_string()));
}

#[test]
fn replicaof_splits_host_and_port() {
    let mut store = Store::new();
    assert!(parse(&mut store, &args(&["server", "--replicaof", "localhost 6379"])).is_ok());
    assert_eq!(map_config_get(&store, "master_host".to_string()), Some("localhost".to_string()));
    assert_eq!(map_config_get(&store, "master_port".to_string()), Some("6379".to_string()));
}

#[test]
fn replicaof_takes_second_word_only() {
    let mut store = Store::new();
    assert!(parse(&mut store, &args(&["server", "--replicaof", "h 1 2"])).is_ok());
    assert_eq!(map_config_get(&store, "master_port".to_string()), Some("1".to_string()));
}

#[test]
fn flag_without_value_aborts() {
    let mut store = Store::new();
    assert!(parse(&mut store, &args(&["server", "--port", "1", "--dir"])).is_err());
    assert!(map_config_get(&store, "port".to_string()).is_none());
}

#[test]
fn replicaof_without_space_aborts() {
    let mut store = Store::new();
    assert!(parse(&mut store, &args(&["server", "--replicaof", "localhost"])).is_err());
}

#[test]
fn unknown_arguments_are_skipped() {
    let mut store = Store::new();
    assert!(parse(&mut store, &args(&["server", "--verbose", "x"])).is_ok());
    assert!(store.keys().is_empty());
    assert!(parse(&mut store, &args(&[])).is_ok());
}

#[test]
fn later_flag_wins() {
    let mut store = Store::new();
    assert!(parse(&mut store, &args(&["server", "--port", "1", "--port", "2"])).is_ok());
    assert_eq!(map_config_get(&store, "port".to_string()), Some("2".to_string()));
}
