use ntep_launcher::backend::{
    backend_address, is_leaked_backend_entry, launcher_marker_text, local_address_uses_port,
    parse_lsof_pids, parse_windows_netstat_pids, pid_text, pids_to_kill, WebuiLaunchConfig,
    BACKEND_SCRIPT, LAUNCHER_PID_ENV, WEBUI_PORT,
};

#[test]
fn default_backend_uses_ntep_port() {
    assert_eq!(WEBUI_PORT, 9150);
    assert_eq!(WebuiLaunchConfig::default().port, 9150);
}

#[test]
fn backend_args_only_launch_main_py() {
    assert_eq!(WebuiLaunchConfig::default().args(), ["main.py"]);
}

#[test]
fn backend_constants() {
    assert_eq!(BACKEND_SCRIPT, "main.py");
    assert_eq!(LAUNCHER_PID_ENV, "NTEP_LAUNCHER_PID");
}

#[test]
fn backend_address_names_loopback_and_port() {
    assert_eq!(backend_address(9150), "127.0.0.1:9150");
    assert_eq!(backend_address(0), "127.0.0.1:0");
    assert_eq!(backend_address(65535), "127.0.0.1:65535");
}

#[test]
fn pid_text_is_decimal() {
    assert_eq!(pid_text(0), "0");
    assert_eq!(pid_text(7), "7");
    assert_eq!(pid_text(4294967295), "4294967295");
    assert_eq!(pid_text(1234), format!("{}", 1234));
}

#[test]
fn launcher_marker_names_the_launcher() {
    assert_eq!(launcher_marker_text(4242), "NTEP_LAUNCHER_PID=4242");
}

#[test]
fn leaked_backend_is_recognised_by_marker() {
    assert!(is_leaked_backend_entry(10, 42, "NTEP_LAUNCHER_PID=42"));
    assert!(!is_leaked_backend_entry(42, 42, "NTEP_LAUNCHER_PID=42"));
    assert!(!is_leaked_backend_entry(10, 42, "NTEP_LAUNCHER_PID=421"));
    assert!(!is_leaked_backend_entry(10, 42, "NTEP_LAUNCHER_PID=4"));
    assert!(!is_leaked_backend_entry(10, 42, ""));
    assert!(!is_leaked_backend_entry(10, 42, "PATH=/usr/bin"));
}

#[test]
fn local_address_port_is_after_last_colon() {
    assert!(local_address_uses_port("0.0.0.0:9150", 9150));
    assert!(local_address_uses_port("[::]:9150", 9150));
    assert!(!local_address_uses_port("0.0.0.0:91500", 9150));
    assert!(!local_address_uses_port("0.0.0.0:9151", 9150));
    assert!(!local_address_uses_port("9150", 9150));
    assert!(!local_address_uses_port("0.0.0.0:", 9150));
    assert!(local_address_uses_port("0.0.0.0:+9150", 9150));
    assert!(!local_address_uses_port("0.0.0.0:70000", 4464));
}

#[test]
fn netstat_rows_listening_on_port() {
    let output = b"\r\nActive Connections\r\n\r\n  Proto  Local Address          Foreign Address        State           PID\r\n  TCP    0.0.0.0:9150           0.0.0.0:0              LISTENING       4321\r\n  TCP    127.0.0.1:9150         127.0.0.1:50000        ESTABLISHED     999\r\n  tcp    [::]:9150              [::]:0                 listening       17\r\n  TCP    0.0.0.0:8080           0.0.0.0:0              LISTENING       55\r\n  TCP    0.0.0.0:9150           0.0.0.0:0              LISTENING       4321\r\n  UDP    0.0.0.0:9150           *:*                                    77\r\n";
    assert_eq!(parse_windows_netstat_pids(output, 9150), vec![17, 4321]);
    assert_eq!(parse_windows_netstat_pids(output, 8080), vec![55]);
    assert_eq!(parse_windows_netstat_pids(output, 1), Vec::<u32>::new());
}

#[test]
fn netstat_rows_need_five_columns_and_a_number() {
    let output = b"TCP 0.0.0.0:9150 0.0.0.0:0 LISTENING\nTCP 0.0.0.0:9150 0.0.0.0:0 LISTENING x12\nTCP 0.0.0.0:9150 0.0.0.0:0 LISTENING 8 extra 9";
    assert_eq!(parse_windows_netstat_pids(output, 9150), vec![9]);
}

#[test]
fn netstat_invalid_utf8_is_tolerated() {
    let output = b"TCP 0.0.0.0:9150 0.0.0.0:0 LISTENING 12\n\xff\xfe TCP junk\n";
    assert_eq!(parse_windows_netstat_pids(output, 9150), vec![12]);
}

#[test]
fn lsof_lines_are_trimmed_and_parsed() {
    assert_eq!(parse_lsof_pids(b"123\n  45 \r\n\nabc\n123\n7"), vec![7, 45, 123]);
    assert_eq!(parse_lsof_pids(b""), Vec::<u32>::new());
    assert_eq!(parse_lsof_pids(b"99999999999\n-1\n+5\n"), vec![5]);
}

#[test]
fn pids_to_kill_skips_zero_and_self() {
    assert_eq!(pids_to_kill(&[0, 3, 42, 7], 42), vec![3, 7]);
    assert_eq!(pids_to_kill(&[], 1), Vec::<u32>::new());
}

#[test]
fn pid_written_reads_back() {
    for pid in [0u32, 1, 42, 65535, 4294967295] {
        let text = pid_text(pid);
        assert_eq!(parse_lsof_pids(text.as_bytes()), vec![pid]);
    }
}
