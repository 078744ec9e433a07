use mcscan::protocol::Ipv4Address;
use mcscan::protocol::SocketAddrV4;
use mcscan::scanner::parse_masscan_line;
use mcscan::scanner::parse_rustscan_line;
use mcscan::scanner::sockets_for_address;
use mcscan::scanner::IterationEnd;
use mcscan::scanner::Mode;
use mcscan::scanner::PermitPool;
use mcscan::scanner::ScanConfig;
use mcscan::scanner::ScanEngine;
use mcscan::scanner::Scanner;
use mcscan::scanner::Supervisor;
use mcscan::scanner::TargetSelection;
use mcscan::scanner::TargetSpec;

fn addr(a: u8, b: u8, c: u8, d: u8) -> Ipv4Address {
    Ipv4Address { a, b, c, d }
}

fn config() -> ScanConfig {
    ScanConfig {
        port_range_start: 25565,
        port_range_end: 25565,
        repeat: false,
        scan_delay: 0,
        engine: ScanEngine::Masscan,
        custom_target: None,
        country: None,
        masscan_config_file: "masscan.conf".to_string(),
        rustscan_command: "rustscan".to_string(),
    }
}

#[test]
fn masscan_line_parsing() {
    let line = "Discovered open port 25565/tcp on 192.168.1.42";
    assert_eq!(
        parse_masscan_line(line),
        Some(SocketAddrV4 { ip: addr(192, 168, 1, 42), port: 25565 })
    );
    // Lines that do not fit the format are skipped.
    assert_eq!(parse_masscan_line(""), None);
    assert_eq!(parse_masscan_line("Starting masscan"), None);
    assert_eq!(parse_masscan_line("Discovered open port banana/tcp on 1.2.3.4"), None);
    assert_eq!(parse_masscan_line("Discovered open port 25565/tcp on not.an.ip.addr"), None);
    assert_eq!(parse_masscan_line("Discovered open port 25565/tcp on"), None);
}

#[test]
fn rustscan_line_parsing() {
    assert_eq!(
        parse_rustscan_line("Open 1.2.3.4:25565"),
        Some(SocketAddrV4 { ip: addr(1, 2, 3, 4), port: 25565 })
    );
    assert_eq!(parse_rustscan_line("open 1.2.3.4:25565"), None);
    assert_eq!(parse_rustscan_line("Open 1.2.3.4"), None);
    assert_eq!(parse_rustscan_line("Open 1.2.3.4:port"), None);
    assert_eq!(parse_rustscan_line("Open"), None);
    assert_eq!(parse_rustscan_line("Scanning..."), None);
}

#[test]
fn rescan_port_fan_out() {
    let sockets = sockets_for_address(addr(10, 0, 0, 1), 25560, 25565);
    assert_eq!(sockets.len(), 6);
    assert_eq!(sockets[0], SocketAddrV4 { ip: addr(10, 0, 0, 1), port: 25560 });
    assert_eq!(sockets[5], SocketAddrV4 { ip: addr(10, 0, 0, 1), port: 25565 });
    let one = sockets_for_address(addr(10, 0, 0, 1), 80, 80);
    assert_eq!(one.len(), 1);
    assert_eq!(one[0].port, 80);
}

#[test]
fn masscan_command_line() {
    let scanner = Scanner::new(config(), Mode::Discovery);
    assert_eq!(
        scanner.masscan_args(None),
        vec!["masscan", "-c", "masscan.conf", "--exclude", "255.255.255.255"]
    );
    let file = TargetSpec::File("cache/br.txt".to_string());
    assert_eq!(
        scanner.masscan_args(Some(&file)),
        vec!["masscan", "-c", "masscan.conf", "--exclude", "255.255.255.255", "-iL", "cache/br.txt"]
    );
    let direct = TargetSpec::Direct("10.0.0.0/8".to_string());
    assert_eq!(
        scanner.masscan_args(Some(&direct)),
        vec!["masscan", "-c", "masscan.conf", "--exclude", "255.255.255.255", "10.0.0.0/8"]
    );
}

#[test]
fn rustscan_command_line() {
    let mut cfg = config();
    cfg.port_range_start = 25500;
    cfg.port_range_end = 25600;
    let scanner = Scanner::new(cfg, Mode::Discovery);
    assert_eq!(
        scanner.rustscan_args("targets.txt"),
        vec!["rustscan", "-r", "25500-25600", "-a", "targets.txt", "--scripts", "none"]
    );
    let single = Scanner::new(config(), Mode::Discovery);
    assert_eq!(
        single.rustscan_args("10.0.0.0/24"),
        vec!["rustscan", "-p", "25565", "-a", "10.0.0.0/24", "--scripts", "none"]
    );
}

#[test]
fn target_selection_priority() {
    let mut cfg = config();
    cfg.custom_target = Some("10.0.0.0/8".to_string());
    cfg.country = Some("BR".to_string());
    let scanner = Scanner::new(cfg, Mode::Discovery);
    assert_eq!(scanner.select_target(), TargetSelection::Direct("10.0.0.0/8".to_string()));

    let mut cfg2 = config();
    cfg2.country = Some("BR".to_string());
    let scanner2 = Scanner::new(cfg2, Mode::Discovery);
    assert_eq!(scanner2.select_target(), TargetSelection::Country("BR".to_string()));

    let scanner3 = Scanner::new(config(), Mode::Discovery);
    assert_eq!(scanner3.select_target(), TargetSelection::Unspecified);
}

#[test]
fn iteration_end_honors_repeat() {
    let scanner = Scanner::new(config(), Mode::Rescanner);
    assert_eq!(scanner.after_iteration(), IterationEnd::Exit);
    let mut cfg = config();
    cfg.repeat = true;
    cfg.scan_delay = 30;
    let repeating = Scanner::new(cfg, Mode::Rescanner);
    assert_eq!(repeating.after_iteration(), IterationEnd::Continue { delay_secs: 30 });
}

#[test]
fn total_ports_counts_the_range() {
    let mut cfg = config();
    cfg.port_range_start = 25500;
    cfg.port_range_end = 25600;
    assert_eq!(Scanner::new(cfg, Mode::Rescanner).total_ports(), 101);
    assert_eq!(Scanner::new(config(), Mode::Rescanner).total_ports(), 1);
}

#[test]
fn permit_pool_caps_concurrency() {
    // The in-flight count can never pass the capacity.
    let mut pool = PermitPool::new(2);
    assert!(pool.try_acquire());
    assert!(pool.try_acquire());
    assert!(!pool.try_acquire());
    assert_eq!(pool.in_flight, 2);
    pool.release();
    assert_eq!(pool.in_flight, 1);
    assert!(pool.try_acquire());
    assert!(!pool.try_acquire());
    assert!(pool.in_flight <= pool.capacity);
}

#[test]
fn supervisor_backoff_doubles_to_the_ceiling() {
    // After k crashes the sleep is min(2^k, 60) seconds.
    let mut sup = Supervisor::new();
    let mut sleeps = Vec::new();
    for _ in 0..8 {
        sleeps.push(sup.on_crash());
    }
    assert_eq!(sleeps, vec![1, 2, 4, 8, 16, 32, 60, 60]);
    sup.on_success();
    assert_eq!(sup.on_crash(), 1);
    assert_eq!(sup.on_crash(), 2);
}
