use valicore::acquisition::{common_length, FailedChannels, LineBuffer};

#[test]
fn line_buffer_keeps_reply_until_newline() {
    let mut line = LineBuffer::new(16);
    let mut done = false;
    for &b in b"1.25E-3\n" {
        done = line.push(b);
    }
    assert!(done);
    assert_eq!(line.count(), 8);
    assert!(!line.overflowed());
    assert_eq!(line.line(), b"1.25E-3\n");
    line.clear();
    assert_eq!(line.count(), 0);
    assert_eq!(line.line(), b"");
}

#[test]
fn line_buffer_counts_bytes_past_capacity() {
    let mut line = LineBuffer::new(4);
    for &b in b"abcdef" {
        assert!(!line.push(b));
    }
    assert_eq!(line.count(), 6);
    assert!(line.overflowed());
    let mut exact = LineBuffer::new(3);
    for &b in b"ab\n" {
        exact.push(b);
    }
    assert!(!exact.overflowed());
    assert_eq!(exact.line(), b"ab\n");
}

#[test]
fn failed_channels_record_and_render() {
    let mut f = FailedChannels::new();
    assert_eq!(f.len(), 0);
    assert_eq!(f.csv(), "");
    assert_eq!(f.all_failed_message(), "all channels failed: [0, 0, 0, 0, 0, 0, 0, 0]");
    f.record(2);
    f.record(4);
    assert_eq!(f.len(), 2);
    assert_eq!(f.csv(), "2,4");
    assert_eq!(f.all_failed_message(), "all channels failed: [2, 4, 0, 0, 0, 0, 0, 0]");
    for ch in 1..=8 {
        f.record(ch);
    }
    assert_eq!(f.len(), 8);
    assert_eq!(f.csv(), "2,4,1,2,3,4,5,6");
    assert_eq!(format!("all channels failed: {:?}", [2u8, 4, 1, 2, 3, 4, 5, 6]), f.all_failed_message());
}

#[test]
fn common_length_is_shortest() {
    assert_eq!(common_length(&vec![]), 0);
    assert_eq!(common_length(&vec![5]), 5);
    assert_eq!(common_length(&vec![9, 3, 7]), 3);
}
