use ml_rust::{human_duration, windows, WindowIteratorConfig};

#[test]
fn test_windows() {
    let data = vec![1, 2, 3, 4];
    let conf = WindowIteratorConfig::new(3);
    let mut iter = windows(&data);
    assert_eq!(iter.next(&conf), Some(&data[0..3]));
    assert_eq!(iter.next(&conf), Some(&data[3..]));
}

#[test]
fn util_test_windows() {
    let data = vec![1, 2, 3, 4];
    let conf = WindowIteratorConfig::new(2);
    let mut iter = windows(&data);
    assert_eq!(iter.next(&conf), Some(&data[0..2]));
    assert_eq!(iter.next(&conf), Some(&data[2..]));
}

#[test]
fn test_decreasing_windows() {
    let data = vec![1, 2, 3, 4, 5, 6, 7, 8, 9, 10];
    let mut conf = WindowIteratorConfig::new(3);
    let mut iter = windows(&data);
    assert_eq!(iter.next(&conf), Some(&data[0..3]));
    conf.set_size(4);
    assert_eq!(iter.next(&conf), Some(&data[3..7]));
}

#[test]
fn test_exhausted_windows() {
    let data: Vec<u8> = vec![5];
    let conf = WindowIteratorConfig::new(2);
    let mut iter = windows(&data);
    assert_eq!(iter.next(&conf), Some(&data[0..1]));
    assert_eq!(iter.next(&conf), None);
}

#[test]
fn test_human_duration() {
    assert_eq!(human_duration(0), "0s");
    assert_eq!(human_duration(61), "1m 1s");
    assert_eq!(human_duration(3610), "1h 10s");
}

#[test]
fn util_test_human_duration() {
    assert_eq!(human_duration(0), "0s");
    assert_eq!(human_duration(61), "1m 1s");
    assert_eq!(human_duration(3610), "1h 10s");
}

#[test]
fn mnist_test_human_duration() {
    assert_eq!(human_duration(0), "0s");
    assert_eq!(human_duration(61), "1m 1s");
    assert_eq!(human_duration(3610), "1h 10s");
}

#[test]
fn test_full_human_duration() {
    assert_eq!(human_duration(25920000 + 2592000 + 86400 + 3600 + 60 + 1), "1y 1M 1d 1h 1m 1s");
}

#[test]
fn test_ref() {
    let vi: Vec<bool> = Vec::new();
    let mut batches = vec![vi; 4];
    batches[0] = vec![false];
    batches[1] = vec![true, true];
    assert_ne!(batches[0], batches[1]);
}

#[test]
fn util_test_ref() {
    let vi: Vec<bool> = Vec::new();
    let mut batches = vec![vi; 4];
    batches[0] = vec![false];
    batches[1] = vec![true, true];
    assert_ne!(batches[0], batches[1]);
}
