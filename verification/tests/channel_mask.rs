use valicore::channel_mask::{write_digit_csv, ChannelMask};

#[test]
fn channel_mask_basics() {
    let mut m = ChannelMask::default();
    assert!(m.is_empty());
    m.set(1);
    m.set(3);
    m.set(5);
    assert!(m.has(1));
    assert!(!m.has(2));
    assert!(m.has(3));
    let (arr, n) = m.to_array();
    assert_eq!(&arr[..n], &[1, 3, 5]);
    m.clear(3);
    assert!(!m.has(3));
    let (arr, n) = m.to_array();
    assert_eq!(&arr[..n], &[1, 5]);
}

#[test]
fn channel_mask_fmt_csv() {
    let mut m = ChannelMask::default();
    m.set(1);
    m.set(3);
    let mut buf = [0u8; 32];
    let len = m.fmt_csv(&mut buf);
    assert_eq!(&buf[..len], b"1,3");
}

#[test]
fn channel_mask_all() {
    let mut m = ChannelMask::default();
    for ch in 1..=8 {
        m.set(ch);
    }
    let (arr, n) = m.to_array();
    assert_eq!(&arr[..n], &[1, 2, 3, 4, 5, 6, 7, 8]);
    m.clear(4);
    let (arr, n) = m.to_array();
    assert_eq!(&arr[..n], &[1, 2, 3, 5, 6, 7, 8]);
}

#[test]
fn channel_mask_iterates_in_ascending_order() {
    let mut m = ChannelMask::new();
    m.set(7);
    m.set(2);
    m.set(4);
    let mut it = m.iter();
    assert_eq!(it.next(), Some(2));
    assert_eq!(it.next(), Some(4));
    assert_eq!(it.next(), Some(7));
    assert_eq!(it.next(), None);
    assert_eq!(it.next(), None);
    let mut seen = Vec::new();
    let mut it = m.into_iter();
    while let Some(c) = it.next() {
        seen.push(c);
    }
    let (arr, n) = m.to_array();
    assert_eq!(&seen[..], &arr[..n]);
}

#[test]
fn channel_mask_empty_lists_nothing() {
    let m = ChannelMask::new();
    let (arr, n) = m.to_array();
    assert_eq!(n, 0);
    assert_eq!(arr, [0u8; 8]);
    let mut buf = [9u8; 32];
    assert_eq!(m.fmt_csv(&mut buf), 0);
    assert_eq!(buf, [9u8; 32]);
    assert_eq!(m.iter().next(), None);
}

#[test]
fn channel_mask_set_is_idempotent_and_clear_of_absent_is_noop() {
    let mut m = ChannelMask::new();
    m.set(6);
    m.set(6);
    let (arr, n) = m.to_array();
    assert_eq!(&arr[..n], &[6]);
    m.clear(2);
    let (arr, n) = m.to_array();
    assert_eq!(&arr[..n], &[6]);
    m.clear(6);
    assert!(m.is_empty());
}

#[test]
fn channel_mask_fmt_csv_all_channels_keeps_tail() {
    let mut m = ChannelMask::new();
    for ch in 1..=8 {
        m.set(ch);
    }
    let mut buf = [b'x'; 32];
    let len = m.fmt_csv(&mut buf);
    assert_eq!(&buf[..len], b"1,2,3,4,5,6,7,8");
    assert!(buf[len..].iter().all(|&b| b == b'x'));
}

#[test]
fn digit_csv_of_failed_channels() {
    let failed = [2u8, 5, 0, 0, 0, 0, 0, 0];
    let mut buf = [0u8; 32];
    let len = write_digit_csv(&failed, 2, &mut buf);
    assert_eq!(&buf[..len], b"2,5");
    assert_eq!(write_digit_csv(&failed, 0, &mut buf), 0);
}
