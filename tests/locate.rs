use catconf::{
    find_marker, locate, scan_window, ConfReaderOptions, LocateError, Scanner, Step,
    DEFAULT_WINDOW_SIZE,
};

fn sample() -> Vec<u8> {
    vec![
        0, 0, 0, 0, 0, 0, 0, 0, 0, 0, 0, 0, 0, 0, 0, 0, 1, 2, 3, 4, 1, 1, 1, 1, 1, 1, 1, 1, 1, 1,
        1, 1,
    ]
}

/// Simplest use case
#[test]
fn pulls_basic_data() {
    let input_data = [
        0, 0, 0, 0, 0, 0, 0, 0, 0, 0, 0, 0, 0, 0, 0, 0, 1, 2, 3, 4, 1, 1, 1, 1, 1, 1, 1, 1, 1, 1,
        1, 1,
    ];
    let header = [1, 2, 3, 4];
    let data = [1, 1, 1, 1, 1, 1, 1, 1, 1, 1, 1, 1];

    assert_eq!(&locate(&input_data, &header, 16).unwrap(), &data);
}

/// The first read of the second scan starts inside the marker, at "2, 3, 4, 1, ...":
/// the marker is found whole only in the next, wider look.
#[test]
fn pulls_data_over_boundary() {
    let input_data = [
        0, 0, 0, 0, 0, 0, 0, 0, 0, 0, 0, 0, 0, 0, 0, 0, 1, 2, 3, 4, 1, 1, 1, 1, 1, 1, 1, 1, 1, 1,
        1, 1,
    ];
    let header = [1, 2, 3, 4];
    let data = [1, 1, 1, 1, 1, 1, 1, 1, 1, 1, 1, 1];

    assert_eq!(&locate(&input_data, &header, 15).unwrap(), &data);
}

#[test]
fn marker_split_by_window_boundary_is_found() {
    // 40 bytes of content, the marker, 5 bytes of payload: with windows of 4 the
    // marker starts 9 bytes from the end, between two window boundaries.
    let mut stream: Vec<u8> = vec![7; 40];
    stream.extend_from_slice(&[9, 8, 9, 8]);
    stream.extend_from_slice(&[5, 4, 3, 2, 1]);
    for window in 4..=20u64 {
        assert_eq!(locate(&stream, &[9, 8, 9, 8], window).unwrap(), vec![5, 4, 3, 2, 1]);
    }
}

#[test]
fn absent_marker_is_not_found() {
    let stream: Vec<u8> = (0..100u8).collect();
    for window in 1..=60u64 {
        assert_eq!(locate(&stream, &[200, 201], window), Err(LocateError::MarkerNotFound));
    }
}

#[test]
fn empty_stream_is_not_found() {
    assert_eq!(locate(&[], &[1], 1), Err(LocateError::MarkerNotFound));
}

#[test]
fn stream_shorter_than_two_windows_is_not_found() {
    let stream = sample();
    assert_eq!(locate(&stream, &[1, 2, 3, 4], 17), Err(LocateError::MarkerNotFound));
}

#[test]
fn huge_window_is_not_found() {
    let stream = sample();
    assert_eq!(locate(&stream, &[1, 2, 3, 4], u64::MAX), Err(LocateError::MarkerNotFound));
}

#[test]
fn locate_twice_gives_same_payload() {
    let stream = sample();
    let first = locate(&stream, &[1, 2, 3, 4], 15).unwrap();
    let second = locate(&stream, &[1, 2, 3, 4], 15).unwrap();
    assert_eq!(first, second);
}

#[test]
fn empty_payload_after_marker() {
    let mut stream: Vec<u8> = vec![0; 10];
    stream.extend_from_slice(&[6, 6]);
    assert_eq!(locate(&stream, &[6, 6], 4).unwrap(), Vec::<u8>::new());
}

#[test]
fn lowest_match_in_the_read_wins() {
    // Both occurrences sit in the first read of the last 8 bytes: the one nearer
    // its start wins, so the payload holds the second marker.
    let stream: Vec<u8> = vec![0, 0, 0, 0, 0, 0, 0, 0, 5, 5, 1, 5, 5, 2, 3, 4];
    assert_eq!(locate(&stream, &[5, 5], 4).unwrap(), vec![1, 5, 5, 2, 3, 4]);
}

#[test]
fn find_marker_gives_lowest_offset() {
    assert_eq!(find_marker(&[0, 1, 2, 1, 2], &[1, 2]), Some(1));
    assert_eq!(find_marker(&[0, 1, 2, 1, 2], &[2, 1, 2]), Some(2));
    assert_eq!(find_marker(&[0, 1, 2], &[3]), None);
    assert_eq!(find_marker(&[1], &[1, 1]), None);
}

#[test]
fn scan_window_decisions() {
    assert_eq!(scan_window(&[1, 2], 4, 8, &[0, 0, 1]), Step::NotFound);
    assert_eq!(scan_window(&[1, 2], 4, 8, &[0, 0, 0, 0, 0, 0, 0, 0]), Step::Continue);
    // The marker ends at offset 5 of a read taken 8 bytes from the end: 3 bytes follow.
    assert_eq!(scan_window(&[1, 2], 4, 8, &[0, 0, 0, 1, 2, 0, 0, 0]), Step::Found(3));
}

#[test]
fn scanner_moves_back_one_window_per_step() {
    let mut scanner = Scanner::new(vec![1, 2], 4);
    assert_eq!(scanner.seek_distance(), 8);
    assert_eq!(scanner.read_len(), 8);
    assert_eq!(scanner.step(&[0; 8]), Step::Continue);
    assert_eq!(scanner.seek_distance(), 12);
    assert_eq!(scanner.step(&[0, 1, 2, 0, 0, 0, 0, 0]), Step::Found(9));
    assert_eq!(scanner.seek_distance(), 12);
}

#[test]
fn scanner_short_read_ends_scan() {
    let mut scanner = Scanner::new(vec![1, 2], 4);
    assert_eq!(scanner.step(&[1, 2, 0]), Step::NotFound);
}

#[test]
fn options_defaults_and_setters() {
    let stream = sample();
    let options = ConfReaderOptions::new(vec![1, 2, 3, 4]);
    assert_eq!(DEFAULT_WINDOW_SIZE, 2048);
    // The default window is far larger than the stream.
    assert_eq!(options.read(&stream), Err(LocateError::MarkerNotFound));

    let mut options = ConfReaderOptions::new(vec![9]);
    options.magic_bytes(vec![1, 2, 3, 4]).window_size(15);
    assert_eq!(options.read(&stream).unwrap(), vec![1; 12]);

    let scanner = options.scanner();
    assert_eq!(scanner.seek_distance(), 30);
    assert_eq!(scanner.read_len(), 30);
}
