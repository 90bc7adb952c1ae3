use lib::decimal::{write_bytes, write_i32, write_u32};

#[test]
fn write_bytes_copies_at_offset() {
    let mut buf = [b'.'; 8];
    let end = write_bytes(&mut buf, 2, b"abc");
    assert_eq!(end, 5);
    assert_eq!(&buf, b"..abc...");
}

#[test]
fn write_bytes_empty_source() {
    let mut buf = [b'.'; 4];
    assert_eq!(write_bytes(&mut buf, 4, b""), 4);
    assert_eq!(&buf, b"....");
}

#[test]
fn write_u32_zero() {
    let mut buf = [b'.'; 4];
    assert_eq!(write_u32(&mut buf, 1, 0), 2);
    assert_eq!(&buf, b".0..");
}

#[test]
fn write_u32_small_and_large() {
    let mut buf = [b'.'; 12];
    assert_eq!(write_u32(&mut buf, 0, 7), 1);
    assert_eq!(&buf[..2], b"7.");
    let mut buf = [b'.'; 12];
    assert_eq!(write_u32(&mut buf, 1, 45231), 6);
    assert_eq!(&buf, b".45231......");
    let mut buf = [b'.'; 12];
    assert_eq!(write_u32(&mut buf, 2, u32::MAX), 12);
    assert_eq!(&buf, b"..4294967295");
}

#[test]
fn write_u32_exact_fit() {
    let mut buf = [0u8; 3];
    assert_eq!(write_u32(&mut buf, 0, 100), 3);
    assert_eq!(&buf, b"100");
}

#[test]
fn write_i32_negative_rssi() {
    let mut buf = [b'.'; 6];
    assert_eq!(write_i32(&mut buf, 1, -62), 4);
    assert_eq!(&buf, b".-62..");
}

#[test]
fn write_i32_extremes() {
    let mut buf = [b'.'; 11];
    assert_eq!(write_i32(&mut buf, 0, i32::MIN), 11);
    assert_eq!(&buf, b"-2147483648");
    let mut buf = [b'.'; 11];
    assert_eq!(write_i32(&mut buf, 0, i32::MAX), 10);
    assert_eq!(&buf, b"2147483647.");
    let mut buf = [b'.'; 3];
    assert_eq!(write_i32(&mut buf, 0, 0), 1);
    assert_eq!(&buf, b"0..");
    let mut buf = [b'.'; 3];
    assert_eq!(write_i32(&mut buf, 1, -1), 3);
    assert_eq!(&buf, b".-1");
}

#[test]
fn decimal_reads_back() {
    for n in [0u32, 1, 9, 10, 99, 100, 65535, 1_000_000_000, u32::MAX] {
        let mut buf = [0u8; 10];
        let end = write_u32(&mut buf, 0, n);
        let text = std::str::from_utf8(&buf[..end]).unwrap();
        assert_eq!(text.parse::<u32>().unwrap(), n);
        assert!(end <= 10);
        assert!(end == 1 || buf[0] != b'0');
    }
}

#[test]
fn signed_decimal_reads_back() {
    for n in [i32::MIN, -2147483647, -100, -1, 0, 1, 62, i32::MAX] {
        let mut buf = [0u8; 11];
        let end = write_i32(&mut buf, 0, n);
        let text = std::str::from_utf8(&buf[..end]).unwrap();
        assert_eq!(text.parse::<i32>().unwrap(), n);
        assert_eq!(text, n.to_string());
    }
}
