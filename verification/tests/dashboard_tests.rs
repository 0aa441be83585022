use argus::dashboard::{parse_listening_ports, Dashboard, Key, PortRow};
use argus::telemetry::to_megabytes;

fn triples(rows: &[PortRow]) -> Vec<(String, String, String)> {
    rows.iter().map(|r| (r.service.clone(), r.port.clone(), r.status.clone())).collect()
}

fn t(a: &str, b: &str, c: &str) -> (String, String, String) {
    (a.to_string(), b.to_string(), c.to_string())
}

const LSOF: &str = "COMMAND   PID USER   FD   TYPE DEVICE SIZE/OFF NODE NAME\n\
node     1234 me   23u  IPv4 0x1      0t0  TCP *:8080 (LISTEN)\n\
postgres   99 me    5u  IPv6 0x2      0t0  TCP [::1]:5432 (LISTEN)\n\
vite       77 me   20u  IPv4 0x3      0t0  TCP 127.0.0.1:5173 (LISTEN)\n\
node       55 me   21u  IPv4 0x4      0t0  TCP *:3000 (LISTEN)\n\
mongod     12 me   10u  IPv4 0x5      0t0  TCP 127.0.0.1:27017 (LISTEN)\n\
astro      13 me   11u  IPv4 0x6      0t0  TCP *:4321 (LISTEN)\n\
ng         14 me   12u  IPv4 0x7      0t0  TCP *:4200 (LISTEN)\n";

#[test]
fn dev_ports_are_listed_in_port_order() {
    let rows = parse_listening_ports(LSOF);
    assert_eq!(
        triples(&rows),
        vec![
            t("React/Next (node)", "3000", "ACTIVE"),
            t("Dev Port (ng)", "4200", "ACTIVE"),
            t("Astro (astro)", "4321", "ACTIVE"),
            t("Vite (vite)", "5173", "ACTIVE"),
            t("Node API (node)", "8080", "ACTIVE"),
            t("MongoDB (mongod)", "27017", "ACTIVE"),
        ]
    );
}

#[test]
fn equal_ports_keep_their_order() {
    let out = "HEADER\nb 1 u 1u IPv4 0 0t0 TCP *:3001 (LISTEN)\na 2 u 1u IPv6 0 0t0 TCP [::]:3001 (LISTEN)\n";
    let rows = parse_listening_ports(out);
    assert_eq!(
        triples(&rows),
        vec![t("Dev Port (b)", "3001", "ACTIVE"), t("Dev Port (a)", "3001", "ACTIVE")]
    );
}

#[test]
fn no_dev_port_shows_the_idle_row() {
    let idle = vec![t("System Clear", "---", "IDLE")];
    assert_eq!(triples(&parse_listening_ports("")), idle);
    assert_eq!(triples(&parse_listening_ports("COMMAND PID\n")), idle);
    assert_eq!(
        triples(&parse_listening_ports("H\nssh 1 u 3u IPv4 0 0t0 TCP *:22 (LISTEN)\n")),
        idle
    );
}

#[test]
fn the_header_line_is_skipped() {
    let rows = parse_listening_ports("x 1 u 1u IPv4 0 0t0 TCP *:3000 (LISTEN)\n");
    assert_eq!(triples(&rows), vec![t("System Clear", "---", "IDLE")]);
}

#[test]
fn tabs_wrap_both_ways() {
    let mut d = Dashboard::new();
    assert_eq!(d.active_tab(), 0);
    assert!(!d.handle_key(Key::Right));
    assert_eq!(d.active_tab(), 1);
    d.handle_key(Key::Right);
    d.handle_key(Key::Right);
    assert_eq!(d.active_tab(), 0);
    d.handle_key(Key::Left);
    assert_eq!(d.active_tab(), 2);
    d.handle_key(Key::Char('2'));
    assert_eq!(d.active_tab(), 1);
    d.handle_key(Key::Char('x'));
    d.handle_key(Key::Other);
    assert_eq!(d.active_tab(), 1);
    assert!(d.handle_key(Key::Char('q')));
    assert_eq!(d.active_tab(), 1);
}

#[test]
fn log_view_keeps_the_newest_ten_lines() {
    let mut d = Dashboard::new();
    assert_eq!(d.voice_logs(), &vec!["[System] Core initialized.".to_string()]);
    d.apply_log_lines(Vec::new());
    assert_eq!(d.voice_logs(), &vec!["[System] Core initialized.".to_string()]);
    let lines: Vec<String> = (0..12).map(|i| format!("line {}", i)).collect();
    d.apply_log_lines(lines.clone());
    assert_eq!(d.voice_logs(), &lines[2..].to_vec());
    d.apply_log_lines(vec!["only".to_string()]);
    assert_eq!(d.voice_logs(), &vec!["only".to_string()]);
}

#[test]
fn port_scans_are_two_seconds_apart() {
    let mut d = Dashboard::new();
    assert!(d.start_port_scan(0));
    assert!(!d.start_port_scan(1_999_999_999));
    assert!(d.start_port_scan(2_000_000_000));
    assert!(!d.start_port_scan(2_500_000_000));
}

#[test]
fn port_scan_replaces_the_table() {
    let mut d = Dashboard::new();
    assert!(d.active_ports().is_empty());
    d.apply_port_scan(LSOF);
    assert_eq!(d.active_ports().len(), 6);
    d.apply_port_scan("");
    assert_eq!(triples(d.active_ports()), vec![t("System Clear", "---", "IDLE")]);
}

#[test]
fn megabytes_round_down() {
    assert_eq!(to_megabytes(0), 0);
    assert_eq!(to_megabytes(1_048_575), 0);
    assert_eq!(to_megabytes(3 * 1_048_576 + 5), 3);
    assert_eq!(to_megabytes(u64::MAX), 17_592_186_044_415);
}
