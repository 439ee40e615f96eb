use lingo::popup::{centered_start, clamp_to_work_area};

const AREA: ((i32, i32), (u32, u32)) = ((0, 0), (1920, 1040));

#[test]
fn leaves_fitting_position_alone() {
    assert_eq!(
        clamp_to_work_area(500, 300, 428, 300, AREA.0, AREA.1, 24),
        (500, 300)
    );
}

#[test]
fn clamps_right_and_bottom_edges() {
    let (x, y) = clamp_to_work_area(1900, 1030, 428, 300, AREA.0, AREA.1, 24);
    assert_eq!(x, 1920 - 428 + 24);
    assert_eq!(y, 1040 - 300 + 24);
}

#[test]
fn clamps_left_and_top_edges() {
    let (x, y) = clamp_to_work_area(-500, -500, 428, 300, AREA.0, AREA.1, 24);
    assert_eq!(x, -24);
    assert_eq!(y, -24);
}

#[test]
fn clamps_on_secondary_monitor_with_negative_origin() {
    // Monitor to the left of primary: origin (-1920, 0).
    let (x, y) = clamp_to_work_area(-30, 500, 428, 300, (-1920, 0), (1920, 1040), 24);
    assert_eq!(x, -428 + 24); // right edge of that monitor
    assert_eq!(y, 500);
}

#[test]
fn oversized_window_pins_to_top_edge() {
    // Taller than the work area: y pins to top; fitting x is untouched.
    let (x, y) = clamp_to_work_area(100, 100, 500, 2000, AREA.0, AREA.1, 0);
    assert_eq!((x, y), (100, 0));
}

#[test]
fn clamping_twice_changes_nothing() {
    let once = clamp_to_work_area(1900, -700, 428, 300, AREA.0, AREA.1, 24);
    let twice = clamp_to_work_area(once.0, once.1, 428, 300, AREA.0, AREA.1, 24);
    assert_eq!(once, twice);
    assert_eq!(once, (1516, -24));
}

#[test]
fn centering_splits_the_leftover_space() {
    assert_eq!(centered_start(0, 1920, 428), 746);
    assert_eq!(centered_start(-1920, 1920, 427), -1920 + 746);
    // A window wider than the area: the negative leftover halves toward zero.
    assert_eq!(centered_start(10, 5, 8), 9);
}
