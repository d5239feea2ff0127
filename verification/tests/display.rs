use esp_ward::display::{segment_area, DisplaySegment};

#[test]
fn quadrants_take_one_corner_each() {
    assert_eq!(segment_area(320, 240, DisplaySegment::TopLeft), (0, 0, 160, 120));
    assert_eq!(segment_area(320, 240, DisplaySegment::TopRight), (160, 0, 160, 120));
    assert_eq!(segment_area(320, 240, DisplaySegment::BottomLeft), (0, 120, 160, 120));
    assert_eq!(
        segment_area(320, 240, DisplaySegment::BottomRight),
        (160, 120, 160, 120)
    );
}

#[test]
fn center_starts_a_quarter_in() {
    assert_eq!(segment_area(320, 240, DisplaySegment::Center), (80, 60, 160, 120));
}

#[test]
fn odd_sizes_round_down() {
    assert_eq!(segment_area(3, 5, DisplaySegment::BottomRight), (1, 2, 1, 2));
}
