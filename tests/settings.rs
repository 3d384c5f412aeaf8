use optics_base::settings::{
    parse_address, ChainConf, ChainSetup, EthereumConf, Level, ReplicaMap, Settings, SetupError, Style,
    TracingConfig,
};

const GOOD: &str = "0x0123456789abcdefABCDEF0123456789abcdef01";

fn setup(name: &str, domain: u32, address: &str) -> ChainSetup {
    ChainSetup {
        name: name.to_string(),
        domain,
        address: address.to_string(),
        chain: ChainConf::Ethereum(EthereumConf { url: "http://localhost:8545".to_string() }),
    }
}

fn settings(home: ChainSetup, replicas: Vec<ChainSetup>) -> Settings {
    Settings { home, replicas, tracing: TracingConfig { style: Style::Pretty, level: Level::Info } }
}

#[test]
fn address_parses_with_and_without_prefix() {
    let with = parse_address(GOOD).unwrap();
    let without = parse_address(&GOOD[2..]).unwrap();
    assert_eq!(with, without);
    assert_eq!(with.len(), 20);
    assert_eq!(with[0], 0x01);
    assert_eq!(with[7], 0xef);
    assert_eq!(with[8], 0xab);
}

#[test]
fn bad_addresses_are_refused() {
    assert_eq!(parse_address("0x1234"), None);
    assert_eq!(parse_address("0x0123456789abcdefABCDEF0123456789abcdef0g"), None);
    assert_eq!(parse_address("0x0123456789abcdefABCDEF0123456789abcdef012"), None);
    assert_eq!(parse_address(""), None);
}

#[test]
fn home_and_replica_resolve() {
    let s = setup("alpha", 1000, GOOD);
    let home = s.try_into_home().unwrap();
    assert_eq!(home.contract.name, "alpha");
    assert_eq!(home.contract.domain, 1000);
    assert_eq!(home.contract.address, parse_address(GOOD).unwrap());
    let replica = s.try_into_replica().unwrap();
    assert_eq!(replica.contract.domain, 1000);
}

#[test]
fn core_with_failing_replica_fails() {
    let s = settings(setup("home", 1, GOOD), vec![setup("bad", 2, "0xnope")]);
    assert!(s.try_home().is_ok());
    let r = s.try_into_core();
    assert_eq!(r.err(), Some(SetupError::InvalidAddress("bad".to_string())));
}

#[test]
fn core_with_failing_home_fails() {
    let s = settings(setup("home", 1, "zz"), vec![setup("good", 2, GOOD)]);
    assert_eq!(s.try_into_core().err(), Some(SetupError::InvalidAddress("home".to_string())));
}

#[test]
fn core_resolves_all_replicas() {
    let s = settings(
        setup("home", 1, GOOD),
        vec![setup("a", 2, GOOD), setup("b", 3, GOOD), setup("a", 4, GOOD)],
    );
    let core = s.try_into_core().unwrap();
    assert_eq!(core.home.contract.domain, 1);
    assert_eq!(core.replicas.len(), 3);
    assert_eq!(core.replicas.get(&"a".to_string()).unwrap().contract.domain, 4);
    assert_eq!(core.replicas.get(&"b".to_string()).unwrap().contract.domain, 3);
    assert!(core.replicas.get(&"c".to_string()).is_none());
    let r = s.try_replicas().unwrap();
    assert_eq!(r.len(), 3);
}

#[test]
fn first_failing_replica_is_named() {
    let s = settings(
        setup("home", 1, GOOD),
        vec![setup("a", 2, GOOD), setup("b", 3, "x"), setup("c", 4, "y")],
    );
    assert_eq!(s.try_replicas().err(), Some(SetupError::InvalidAddress("b".to_string())));
    assert_eq!(ReplicaMap::new().len(), 0);
}
