use shn::BufferedWriter;

#[test]
fn test_empty() {
    let buf = BufferedWriter::new();
    let buf = buf.into_buffer();
    assert!(buf[..] == []);
}

#[test]
fn test_no_capacity_single_data() {
    let mut buf = BufferedWriter::new();
    buf.write(&[1, 2, 3]);
    let buf = buf.into_buffer();
    assert!(buf[..] == [1, 2, 3]);
}

#[test]
fn test_no_capacity_multiple_data() {
    let mut buf = BufferedWriter::new();
    buf.write(&[1, 2]);
    buf.write(&[3, 4]);
    let buf = buf.into_buffer();
    assert!(buf[..] == [1, 2, 3, 4]);
}

#[test]
fn test_capacity_empty() {
    let buf = BufferedWriter::with_capacity(0);
    let buf = buf.into_buffer();
    assert!(buf[..] == []);
}

#[test]
fn test_capacity_single_data() {
    let mut buf = BufferedWriter::with_capacity(3);
    buf.write(&[1, 2, 3]);
    let buf = buf.into_buffer();
    assert!(buf[..] == [1, 2, 3]);
}

#[test]
fn test_capacity_multiple_data() {
    let mut buf = BufferedWriter::with_capacity(4);
    buf.write(&[1, 2]);
    buf.write(&[3, 4]);
    let buf = buf.into_buffer();
    assert!(buf[..] == [1, 2, 3, 4]);
}

#[test]
fn test_write_reports_length_and_flush_keeps_bytes() {
    let mut buf = BufferedWriter::new();
    let n = buf.write(&[9, 8, 7]);
    assert_eq!(n, 3);
    buf.flush();
    let buf = buf.into_buffer();
    assert_eq!(buf, vec![9, 8, 7]);
}
