use lib::metrics::{derive_status, Metrics};
use lib::payload::{build_json, build_request, format_log_num, JSON_BUF_LEN, LOG_BUF_LEN, TX_BUF_LEN};

fn sample() -> Metrics {
    Metrics {
        cpu_usage_pct: 34,
        free_heap_bytes: 42000,
        uptime_ms: 45231,
        bytes_tx: 1240,
        bytes_rx: 890,
        net_errors: 0,
        stack_usage_pct: 28,
        idle_ratio_pct: 66,
        rssi_dbm: -62,
        reset_count: 0,
    }
}

#[test]
fn status_nominal() {
    assert_eq!(derive_status(&sample()), b"ok");
}

#[test]
fn status_each_threshold() {
    let mut m = sample();
    m.cpu_usage_pct = 81;
    assert_eq!(derive_status(&m), b"cpu_saturated");
    let mut m = sample();
    m.free_heap_bytes = 4095;
    assert_eq!(derive_status(&m), b"heap_low");
    let mut m = sample();
    m.net_errors = 4;
    assert_eq!(derive_status(&m), b"net_degraded");
    let mut m = sample();
    m.stack_usage_pct = 86;
    assert_eq!(derive_status(&m), b"stack_overflow_risk");
}

#[test]
fn status_boundaries_are_nominal() {
    let mut m = sample();
    m.cpu_usage_pct = 80;
    m.free_heap_bytes = 4096;
    m.net_errors = 3;
    m.stack_usage_pct = 85;
    assert_eq!(derive_status(&m), b"ok");
}

#[test]
fn status_priority_order() {
    let mut m = sample();
    m.cpu_usage_pct = 100;
    m.free_heap_bytes = 0;
    m.net_errors = 10;
    m.stack_usage_pct = 99;
    assert_eq!(derive_status(&m), b"cpu_saturated");
    m.cpu_usage_pct = 0;
    assert_eq!(derive_status(&m), b"heap_low");
    m.free_heap_bytes = 100000;
    assert_eq!(derive_status(&m), b"net_degraded");
    m.net_errors = 0;
    assert_eq!(derive_status(&m), b"stack_overflow_risk");
}

#[test]
fn json_matches_documented_example() {
    let mut b = [0xaau8; JSON_BUF_LEN];
    let len = build_json(&mut b, &sample(), 1);
    let expected = "{\"device\":\"heltec_v3\",\"os\":\"zephyr\",\"seq\":1,\"uptime_ms\":45231,\
\"cpu_usage_pct\":34,\"free_heap_bytes\":42000,\"stack_usage_pct\":28,\"idle_ratio_pct\":66,\
\"bytes_tx\":1240,\"bytes_rx\":890,\"net_errors\":0,\"rssi_dbm\":-62,\"reset_count\":0,\
\"status\":\"ok\"}";
    assert_eq!(std::str::from_utf8(&b[..len]).unwrap(), expected);
    assert!(b[len..].iter().all(|&x| x == 0xaa));
}

#[test]
fn json_largest_payload_fits() {
    let m = Metrics {
        cpu_usage_pct: 50,
        free_heap_bytes: u32::MAX,
        uptime_ms: u32::MAX,
        bytes_tx: u32::MAX,
        bytes_rx: u32::MAX,
        net_errors: 3,
        stack_usage_pct: u32::MAX,
        idle_ratio_pct: u32::MAX,
        rssi_dbm: i32::MIN,
        reset_count: u32::MAX,
    };
    let mut b = [0u8; JSON_BUF_LEN];
    let len = build_json(&mut b, &m, u32::MAX);
    assert!(len <= 336);
    let text = std::str::from_utf8(&b[..len]).unwrap();
    assert!(text.ends_with("\"reset_count\":4294967295,\"status\":\"stack_overflow_risk\"}"));
    assert!(text.contains("\"rssi_dbm\":-2147483648,"));
}

#[test]
fn request_wraps_payload() {
    let json = b"{\"a\":1}";
    let mut tx = [0u8; TX_BUF_LEN];
    let len = build_request(&mut tx, json);
    let expected = "POST /metrics HTTP/1.0\r\nHost: 10.42.0.1:8080\r\n\
Content-Type: application/json\r\nContent-Length: 7\r\nConnection: close\r\n\r\n{\"a\":1}";
    assert_eq!(std::str::from_utf8(&tx[..len]).unwrap(), expected);
}

#[test]
fn request_with_full_json_buffer_fits() {
    let json = [b'x'; JSON_BUF_LEN];
    let mut tx = [0u8; TX_BUF_LEN];
    let len = build_request(&mut tx, &json);
    assert!(len <= TX_BUF_LEN);
    assert!(len <= JSON_BUF_LEN + 120);
    let text = std::str::from_utf8(&tx[..len]).unwrap();
    assert!(text.contains("Content-Length: 384\r\n"));
}

#[test]
fn request_for_documented_example() {
    let mut b = [0u8; JSON_BUF_LEN];
    let json_len = build_json(&mut b, &sample(), 1);
    let mut tx = [0u8; TX_BUF_LEN];
    let len = build_request(&mut tx, &b[..json_len]);
    let text = std::str::from_utf8(&tx[..len]).unwrap();
    assert!(text.starts_with("POST /metrics HTTP/1.0\r\nHost: 10.42.0.1:8080\r\n"));
    assert!(text.contains(&format!("Content-Length: {}\r\n", json_len)));
    assert!(text.ends_with("\"status\":\"ok\"}"));
}

#[test]
fn log_line_short_prefix() {
    let mut buf = [b'.'; LOG_BUF_LEN];
    let len = format_log_num(&mut buf, b"  cpu=", 34);
    assert_eq!(&buf[..len], b"  cpu=34\n");
    assert_eq!(buf[len], b'.');
}

#[test]
fn log_line_long_prefix_is_cut() {
    let prefix = [b'p'; 150];
    let mut buf = [0u8; LOG_BUF_LEN];
    let len = format_log_num(&mut buf, &prefix, u32::MAX);
    assert_eq!(len, 110 + 10 + 1);
    assert!(buf[..110].iter().all(|&x| x == b'p'));
    assert_eq!(&buf[110..len], b"4294967295\n");
}

#[test]
fn log_line_empty_prefix() {
    let mut buf = [0u8; LOG_BUF_LEN];
    let len = format_log_num(&mut buf, b"", 0);
    assert_eq!(&buf[..len], b"0\n");
}

#[test]
fn status_names_are_distinct() {
    let mut names = Vec::new();
    for (cpu, heap, errors, stack) in
        [(0, 5000, 0, 0), (90, 5000, 0, 0), (0, 0, 0, 0), (0, 5000, 9, 0), (0, 5000, 0, 90)]
    {
        let mut m = sample();
        m.cpu_usage_pct = cpu;
        m.free_heap_bytes = heap;
        m.net_errors = errors;
        m.stack_usage_pct = stack;
        let name = derive_status(&m);
        assert!(!name.is_empty() && name.len() <= 19);
        assert!(name.is_ascii());
        names.push(name);
    }
    for i in 0..names.len() {
        for j in 0..names.len() {
            assert_eq!(i == j, names[i] == names[j]);
        }
    }
}
