use buoy_code::controller::{acquisition_step, frame_marker_bytes, RecordingWindow};
use buoy_code::frame::{clean_x3_data, find_first, find_last};
use buoy_code::FX30_RECORD_LEN;

const TARGET_BUF: &[u8; 4] = &[b'S', b'T', 0x00, 0x01];
const BUF: &[u8; 30] = &[
    b'S', b'T', 0x00, 0x01, 0x00, 0x01, 0x00, 0x01, 0x00, 0x01, 0x00, 0x01, 0x00, 0x01, 0x00, b'S',
    b'T', 0x00, 0x01, 0x01, 0x00, 0x01, b'S', b'T', 0x00, 0x01, 0x01, b'S', b'T', 0x00,
];

#[test]
fn test_findfirst() {
    assert_eq!(0, find_first(BUF, TARGET_BUF).unwrap());
    assert_eq!(14, find_first(&BUF[1..], TARGET_BUF).unwrap());
    assert_eq!(None, find_first(&BUF[28..], TARGET_BUF));
    assert_eq!(None, find_first(BUF, &[0xff, 0xfe, 0xf1]));
}

#[test]
fn test_findlast() {
    assert_eq!(22, find_last(BUF, TARGET_BUF).unwrap());
    assert_eq!(0, find_last(&BUF[22..], TARGET_BUF).unwrap());
    assert_eq!(None, find_last(&BUF[23..], TARGET_BUF));
    assert_eq!(None, find_last(&BUF[28..], TARGET_BUF));
    assert_eq!(None, find_last(BUF, &[0xff, 0xfe, 0xf1]));
}

#[test]
fn test_clean_x3_data() {
    let exp_clean_buf = vec![
        b'S', b'T', 0x00, 0x01, 0x00, 0x01, 0x00, 0x01, 0x00, 0x01, 0x00, 0x01, 0x00, 0x01, 0x00,
        b'S', b'T', 0x00, 0x01, 0x01, 0x00, 0x01,
    ];
    let exp_rem_buf = vec![b'S', b'T', 0x00, 0x01, 0x01, b'S', b'T', 0x00];

    assert_eq!((exp_clean_buf, exp_rem_buf), clean_x3_data(&BUF.to_vec(), TARGET_BUF));
}

#[test]
fn marker_at_the_very_end_is_found() {
    let buf = [9, 9, b'S', b'T', 0, 1, 7, 7, b'S', b'T', 0, 1];
    assert_eq!(Some(2), find_first(&buf, TARGET_BUF));
    assert_eq!(Some(8), find_last(&buf, TARGET_BUF));
}

#[test]
fn two_markers_give_slice_and_remainder() {
    let buf = [1, 2, b'S', b'T', 0, 1, 5, 6, b'S', b'T', 0, 1, 8];
    let (clean, rest) = clean_x3_data(&buf, TARGET_BUF);
    assert_eq!(clean, buf[2..8].to_vec());
    assert_eq!(rest, buf[8..].to_vec());
}

#[test]
fn no_marker_passes_whole_buffer() {
    let buf = [1, 2, 3, 4, 5];
    assert_eq!(clean_x3_data(&buf, TARGET_BUF), (buf.to_vec(), vec![]));
}

#[test]
fn one_marker_passes_whole_buffer() {
    let buf = [1, b'S', b'T', 0, 1, 4];
    assert_eq!(clean_x3_data(&buf, TARGET_BUF), (buf.to_vec(), vec![]));
}

#[test]
fn empty_buffer_stays_empty() {
    assert_eq!(clean_x3_data(&[], TARGET_BUF), (vec![], vec![]));
}

#[test]
fn carried_remainder_recovers_all_frames() {
    let first = [b'S', b'T', 0, 1, 10, b'S', b'T', 0, 1, 11];
    let more = [12, b'S', b'T', 0, 1, 13];
    let (o1, r1) = clean_x3_data(&first, TARGET_BUF);
    let mut next = r1.clone();
    next.extend_from_slice(&more);
    let (o2, r2) = clean_x3_data(&next, TARGET_BUF);
    let mut joined = o1.clone();
    joined.extend_from_slice(&o2);
    joined.extend_from_slice(&r2);
    let mut expected = first.to_vec();
    expected.extend_from_slice(&more);
    assert_eq!(joined, expected);
    assert_eq!(o2, vec![b'S', b'T', 0, 1, 11, 12]);
    assert_eq!(r2, vec![b'S', b'T', 0, 1, 13]);
}

#[test]
fn window_waits_until_due() {
    let mut w = RecordingWindow::new(b"t0".to_vec());
    let out = acquisition_step(&mut w, &[1, 2, 3], FX30_RECORD_LEN, b"t1".to_vec());
    assert!(out.is_none());
    assert_eq!(w.buf, vec![1, 2, 3]);
    assert_eq!(w.start_time, b"t0".to_vec());
}

#[test]
fn empty_window_is_never_cut() {
    let mut w = RecordingWindow::new(b"t0".to_vec());
    let out = acquisition_step(&mut w, &[], FX30_RECORD_LEN + 100, b"t1".to_vec());
    assert!(out.is_none());
}

#[test]
fn due_window_is_cut_and_restarted() {
    let mut w = RecordingWindow::new(b"t0".to_vec());
    let marker = frame_marker_bytes();
    let mut read = marker.clone();
    read.extend_from_slice(&[1, 2]);
    read.extend_from_slice(&marker);
    read.push(3);
    let (frames, started) =
        acquisition_step(&mut w, &read, FX30_RECORD_LEN + 1, b"t1".to_vec()).unwrap();
    assert_eq!(frames, vec![b'S', b'T', 0, 1, 1, 2]);
    assert_eq!(started, b"t0".to_vec());
    assert_eq!(w.buf, vec![b'S', b'T', 0, 1, 3]);
    assert_eq!(w.start_time, b"t1".to_vec());
}
