use nephtys::detector::{bounding_area, DetectorParams, MotionDetector, Point};

fn rect(w: i32, h: i32) -> Vec<Point> {
    vec![Point { x: 3, y: 7 }, Point { x: 3 + w - 1, y: 7 + h - 1 }, Point { x: 3 + w / 2, y: 7 }]
}

fn seeded() -> MotionDetector {
    let mut d = MotionDetector::new(DetectorParams::standard());
    assert_eq!(d.observe_frame(&vec![]), 0);
    d
}

#[test]
fn standard_params() {
    let p = DetectorParams::standard();
    assert_eq!(p.area_threshold, 250);
    assert_eq!(p.debounce_count, 10);
    assert_eq!(p.window_frames, 30);
}

#[test]
fn bounding_area_of_points() {
    assert_eq!(bounding_area(&vec![]), 0);
    assert_eq!(bounding_area(&vec![Point { x: -4, y: 9 }]), 1);
    assert_eq!(bounding_area(&rect(10, 10)), 100);
    assert_eq!(bounding_area(&vec![Point { x: 5, y: 1 }, Point { x: -5, y: 3 }, Point { x: 0, y: -2 }]), 11 * 6);
    assert_eq!(
        bounding_area(&vec![Point { x: i32::MIN, y: i32::MIN }, Point { x: i32::MAX, y: i32::MAX }]),
        1u128 << 64
    );
}

#[test]
fn first_frame_only_seeds() {
    let mut d = MotionDetector::new(DetectorParams::standard());
    let many: Vec<Vec<Point>> = (0..40).map(|_| rect(20, 20)).collect();
    assert_eq!(d.observe_frame(&many), 0);
    assert!(d.seeded);
    assert_eq!(d.detection_count, 0);
    assert_eq!(d.frame_count, 1);
}

#[test]
fn area_equal_to_threshold_is_no_detection() {
    let mut d = seeded();
    assert_eq!(bounding_area(&rect(25, 10)), 250);
    assert_eq!(d.observe_frame(&vec![rect(25, 10)]), 0);
    assert_eq!(d.detection_count, 0);
    assert_eq!(bounding_area(&rect(251, 1)), 251);
    assert_eq!(d.observe_frame(&vec![rect(251, 1)]), 0);
    assert_eq!(d.detection_count, 1);
}

#[test]
fn one_signal_per_debounce_crossing() {
    let mut d = seeded();
    let ten: Vec<Vec<Point>> = (0..10).map(|_| rect(20, 20)).collect();
    assert_eq!(d.observe_frame(&ten), 0);
    assert_eq!(d.detection_count, 10);
    assert_eq!(d.observe_frame(&vec![rect(20, 20)]), 1);
    assert_eq!(d.detection_count, 0);
    let many: Vec<Vec<Point>> = (0..25).map(|_| rect(20, 20)).collect();
    assert_eq!(d.observe_frame(&many), 2);
    assert_eq!(d.detection_count, 3);
}

#[test]
fn small_contours_are_ignored() {
    let mut d = seeded();
    let small: Vec<Vec<Point>> = (0..50).map(|_| rect(5, 5)).collect();
    assert_eq!(d.observe_frame(&small), 0);
    assert_eq!(d.detection_count, 0);
}

#[test]
fn record_detection_resets_after_signal() {
    let mut d = seeded();
    for k in 1..=10u32 {
        assert!(!d.record_detection());
        assert_eq!(d.detection_count, k);
    }
    assert!(d.record_detection());
    assert_eq!(d.detection_count, 0);
}

#[test]
fn window_reset_discards_partial_count() {
    let mut d = seeded();
    assert_eq!(d.frame_count, 1);
    let ten: Vec<Vec<Point>> = (0..10).map(|_| rect(20, 20)).collect();
    assert_eq!(d.observe_frame(&ten), 0);
    for _ in 0..27 {
        assert_eq!(d.observe_frame(&vec![]), 0);
    }
    assert_eq!(d.frame_count, 29);
    assert_eq!(d.detection_count, 10);
    assert_eq!(d.observe_frame(&vec![]), 0);
    assert_eq!(d.frame_count, 0);
    assert_eq!(d.detection_count, 0);
    assert_eq!(d.observe_frame(&vec![rect(20, 20)]), 0);
    assert_eq!(d.detection_count, 1);
}

#[test]
fn window_reset_after_signal_in_last_frame() {
    let mut d = seeded();
    for _ in 0..28 {
        assert_eq!(d.observe_frame(&vec![]), 0);
    }
    let twelve: Vec<Vec<Point>> = (0..12).map(|_| rect(20, 20)).collect();
    assert_eq!(d.observe_frame(&twelve), 1);
    assert_eq!(d.frame_count, 0);
    assert_eq!(d.detection_count, 0);
}

#[test]
fn one_qualifying_contour_per_frame_signals_on_eleventh_frame() {
    let mut d = seeded();
    let mut sent = vec![];
    for _ in 0..22 {
        sent.push(d.observe_frame(&vec![rect(20, 20), rect(3, 3)]));
    }
    let signal_frames: Vec<usize> = (0..22).filter(|&k| sent[k] > 0).collect();
    assert_eq!(signal_frames, vec![10, 21]);
    assert_eq!(sent.iter().sum::<usize>(), 2);
    assert_eq!(sent[..10].iter().sum::<usize>(), 0);
}

#[test]
fn partial_counts_of_two_windows_do_not_combine() {
    let mut d = seeded();
    let mut sent = 0;
    // Frames 2..=20 of the first window have no detection.
    for _ in 0..19 {
        sent += d.observe_frame(&vec![]);
    }
    // Frames 21..=30 and 31..=40 each hold one qualifying contour.
    for _ in 0..20 {
        sent += d.observe_frame(&vec![rect(30, 30)]);
    }
    assert_eq!(sent, 0);
    assert_eq!(d.detection_count, 10);
    assert_eq!(d.frame_count, 10);
}

#[test]
fn window_signals_are_total_over_eleven() {
    let mut d = seeded();
    let mut sent = 0;
    let mut total = 0;
    for k in 0..29 {
        let n = (k * 7) % 5;
        total += n;
        let frame: Vec<Vec<Point>> = (0..n).map(|_| rect(16, 16)).collect();
        sent += d.observe_frame(&frame);
    }
    assert_eq!(d.frame_count, 0);
    assert_eq!(sent, total / 11);
}
