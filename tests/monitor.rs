use idle_sidecar::monitor::{summarize, ActivityPolicy, ConnectionMonitor, ConnectionState};
use idle_sidecar::table::{parse_row, parse_table, ConnectionRecord, TcpState};

const HEADER: &str = "  sl  local_address rem_address   st tx_queue rx_queue tr tm->when retrnsmt   uid  timeout inode\n";
const ROW_8080_EST: &str = "   0: 0100007F:1F90 0100007F:D431 01 00000000:00000000 00:00000000 00000000  1000        0 41213 1 0000000000000000 20 4 30 10 -1\n";
const ROW_9090_EST: &str = "   1: 0100007F:2382 0100007F:D432 01 00000000:00000000 00:00000000 00000000  1000        0 41214 1 0000000000000000 20 4 30 10 -1\n";

fn monitor(port: u16) -> ConnectionMonitor {
    ConnectionMonitor::new(port, String::from("/proc/net/tcp"))
}

#[test]
fn header_only_table_has_no_records() {
    assert!(parse_table(HEADER.as_bytes()).is_empty());
    assert!(parse_table(HEADER.trim_end().as_bytes()).is_empty());
    assert!(parse_table(b"").is_empty());
}

#[test]
fn matching_established_row_is_active() {
    let mut m = monitor(8080);
    let table = format!("{}{}", HEADER, ROW_8080_EST);
    m.refresh_from(table.as_bytes());
    let s = m.state();
    assert!(s.refreshed);
    assert!(s.has_active_connections);
    assert_eq!(vec![TcpState::Established], s.observed_states);
}

#[test]
fn other_port_row_is_inactive() {
    let mut m = monitor(8080);
    let table = format!("{}{}", HEADER, ROW_9090_EST);
    m.refresh_from(table.as_bytes());
    let s = m.state();
    assert!(s.refreshed);
    assert!(!s.has_active_connections);
    assert!(s.observed_states.is_empty());
}

#[test]
fn malformed_row_is_skipped() {
    let mut m = monitor(8080);
    let table = format!("{}   0: 0100007F:1F9 0100007F:D431 01 0\n{}", HEADER, ROW_8080_EST);
    let records = parse_table(table.as_bytes());
    assert_eq!(1, records.len());
    m.refresh_from(table.as_bytes());
    assert!(m.state().has_active_connections);
}

#[test]
fn repeated_refresh_gives_same_snapshot() {
    let table = format!("{}{}{}", HEADER, ROW_8080_EST, ROW_9090_EST);
    let mut a = monitor(8080);
    let mut b = monitor(8080);
    b.refresh_from(HEADER.as_bytes());
    a.refresh_from(table.as_bytes());
    b.refresh_from(table.as_bytes());
    let first = a.state();
    a.refresh_from(table.as_bytes());
    let second = a.state();
    let other = b.state();
    for s in [&second, &other] {
        assert_eq!(first.refreshed, s.refreshed);
        assert_eq!(first.has_active_connections, s.has_active_connections);
        assert_eq!(first.observed_states, s.observed_states);
    }
}

#[test]
fn state_before_refresh_is_default() {
    let m = monitor(8080);
    let s = m.state();
    assert!(!s.refreshed);
    assert!(!s.has_active_connections);
    assert!(s.observed_states.is_empty());
    let d = ConnectionState::default();
    assert_eq!(d.refreshed, s.refreshed);
    assert_eq!(d.has_active_connections, s.has_active_connections);
}

#[test]
fn literal_listen_row() {
    let input = "  sl  local_address rem_address   st ...\n   0: 0100007F:1F90 00000000:0000 0A ...\n";
    let records = parse_table(input.as_bytes());
    assert_eq!(
        vec![ConnectionRecord {
            local_address: 0x7F00_0001,
            local_port: 8080,
            remote_address: 0,
            remote_port: 0,
            state: TcpState::Listen,
        }],
        records
    );
    let mut m = monitor(8080);
    m.refresh_from(input.as_bytes());
    assert!(m.state().has_active_connections);
    let mut m = monitor(9090);
    m.refresh_from(input.as_bytes());
    assert!(!m.state().has_active_connections);
}

#[test]
fn policy_limits_active_states() {
    let input = "  sl  local_address rem_address   st ...\n   0: 0100007F:1F90 00000000:0000 0A ...\n";
    let mut m = ConnectionMonitor::with_policy(
        8080,
        String::from("/proc/net/tcp"),
        ActivityPolicy::States(vec![TcpState::Established]),
    );
    m.refresh_from(input.as_bytes());
    let s = m.state();
    assert!(!s.has_active_connections);
    assert_eq!(vec![TcpState::Listen], s.observed_states);
    let table = format!("{}{}", HEADER, ROW_8080_EST);
    m.refresh_from(table.as_bytes());
    assert!(m.state().has_active_connections);
}

#[test]
fn unknown_state_code_is_kept() {
    let r = parse_row(b"  12: 0A01A8C0:0050 0B01A8C0:C350 0C 0").unwrap();
    assert_eq!(TcpState::Unknown(0x0C), r.state);
    assert_eq!(0xC0A8_010A, r.local_address);
    assert_eq!(0xC0A8_010B, r.remote_address);
    assert_eq!(80, r.local_port);
    assert_eq!(50000, r.remote_port);
    let records = vec![r];
    let s = summarize(&records, 80, &ActivityPolicy::AnyState);
    assert!(s.has_active_connections);
    assert_eq!(vec![TcpState::Unknown(0x0C)], s.observed_states);
}

#[test]
fn state_codes() {
    let expected = [
        TcpState::Established,
        TcpState::SynSent,
        TcpState::SynRecv,
        TcpState::FinWait1,
        TcpState::FinWait2,
        TcpState::TimeWait,
        TcpState::Close,
        TcpState::CloseWait,
        TcpState::LastAck,
        TcpState::Listen,
        TcpState::Closing,
    ];
    for (i, s) in expected.iter().enumerate() {
        assert_eq!(*s, TcpState::from_code(i as u8 + 1));
    }
    assert_eq!(TcpState::Unknown(0), TcpState::from_code(0));
}

#[test]
fn rows_without_leading_space_or_with_bad_fields() {
    assert!(parse_row(b"1000: 0100007F:1F90 00000000:0000 0A").is_some());
    assert!(parse_row(b"   0 0100007F:1F90 00000000:0000 0A").is_none());
    assert!(parse_row(b"   0: 0100007F:1F90 00000000:0000").is_none());
    assert!(parse_row(b"   0: 0100007F1F90 00000000:0000 0A").is_none());
    assert!(parse_row(b"").is_none());
}

#[test]
fn monitor_keeps_configuration() {
    let m = monitor(8080);
    assert_eq!(8080, m.target_port());
    assert_eq!("/proc/net/tcp", m.source_path());
    assert!(matches!(m.policy(), ActivityPolicy::AnyState));
}

#[test]
fn publish_replaces_status() {
    let mut m = monitor(8080);
    let table = format!("{}{}", HEADER, ROW_8080_EST);
    let s = m.snapshot_of(table.as_bytes());
    assert!(!m.state().refreshed);
    m.publish(s);
    assert!(m.state().has_active_connections);
}
