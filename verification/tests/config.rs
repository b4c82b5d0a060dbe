use match_pdf::config::{resolve_coordinate, to_pixels, Config};
use match_pdf::geometry::Rectangle;

/// One inch in the unit of configured coordinates.
const INCH: i64 = 1_000_000;
/// A thousandth of an inch.
const MIL: i64 = 1_000;

fn rect(page: &str, left: i64, top: i64, right: i64, bottom: i64) -> Rectangle {
    Rectangle { page: String::from(page), top_left: [left, top], bottom_right: [right, bottom] }
}

fn corners(r: &Rectangle) -> (i64, i64, i64, i64) {
    (r.top_left[0], r.top_left[1], r.bottom_right[0], r.bottom_right[1])
}

#[test]
fn even_rectangle_does_not_match_page_three() {
    let config = Config { ignored_rectangles: vec![rect("even", INCH, INCH, 2 * INCH, 2 * INCH)] };
    assert!(config.get_matching_rectangles("3", 792).is_empty());
}

#[test]
fn odd_rectangle_matches_page_three() {
    let config = Config { ignored_rectangles: vec![rect("odd", INCH, INCH, 2 * INCH, 2 * INCH)] };
    let found = config.get_matching_rectangles("3", 792);
    assert_eq!(found.len(), 1);
    assert_eq!(found[0].page, "odd");
}

#[test]
fn empty_configuration_matches_nothing() {
    let config = Config { ignored_rectangles: vec![] };
    assert!(config.get_matching_rectangles("1", 792).is_empty());
}

#[test]
fn matching_keeps_configured_order() {
    let config = Config {
        ignored_rectangles: vec![
            rect("all", 0, 0, INCH, INCH),
            rect("even", 0, 0, 2 * INCH, 2 * INCH),
            rect("2", 0, 0, 3 * INCH, 3 * INCH),
            rect("odd", 0, 0, 4 * INCH, 4 * INCH),
            rect("3", 0, 0, 5 * INCH, 5 * INCH),
            rect("all", 0, 0, 6 * INCH, 6 * INCH),
        ],
    };
    // 2000 pixels for 1440 points: 100 pixels to the inch.
    let page2: Vec<i64> =
        config.get_matching_rectangles("2", 1440).iter().map(|r| r.bottom_right[0]).collect();
    assert_eq!(page2, vec![100, 200, 300, 600]);
    let page3: Vec<i64> =
        config.get_matching_rectangles("3", 1440).iter().map(|r| r.bottom_right[0]).collect();
    assert_eq!(page3, vec![100, 400, 500, 600]);
    let cover: Vec<i64> =
        config.get_matching_rectangles("cover", 1440).iter().map(|r| r.bottom_right[0]).collect();
    assert_eq!(cover, vec![100, 600]);
}

#[test]
fn matching_leaves_the_configuration_alone() {
    let config =
        Config { ignored_rectangles: vec![rect("all", INCH / 2, INCH, 3 * INCH / 2, 2 * INCH)] };
    let _ = config.get_matching_rectangles("1", 792);
    assert_eq!(
        corners(&config.ignored_rectangles[0]),
        (INCH / 2, INCH, 3 * INCH / 2, 2 * INCH)
    );
}

#[test]
fn corners_are_converted_to_pixels() {
    // Letter page, 792 points tall: one inch is 72 * 2000 / 792 = 181.81.. pixels.
    let config =
        Config { ignored_rectangles: vec![rect("all", INCH / 2, INCH, 17 * INCH / 2, 11 * INCH)] };
    let found = config.get_matching_rectangles("1", 792);
    assert_eq!(found.len(), 1);
    assert_eq!(corners(&found[0]), (91, 182, 1545, 2000));
    assert_eq!(found[0].page, "all");
}

#[test]
fn resolved_corners_are_never_negative() {
    // Corners at (-1, -0.5) and (1, 1) inch on a page of 720 points: 200 pixels to the inch.
    let config = Config { ignored_rectangles: vec![rect("all", -INCH, -INCH / 2, INCH, INCH)] };
    let found = config.get_matching_rectangles("1", 720);
    assert_eq!(found.len(), 1);
    assert_eq!(found[0].top_left, [0, 0]);
    assert_eq!(found[0].bottom_right, [200, 200]);
}

#[test]
fn rectangle_wholly_before_the_page_resolves_to_its_first_pixel() {
    let config = Config { ignored_rectangles: vec![rect("all", -3 * INCH, -3 * INCH, -INCH, -INCH)] };
    let found = config.get_matching_rectangles("1", 720);
    assert_eq!(corners(&found[0]), (0, 0, 0, 0));
    // A page without height: what is before the page still goes to 0, what is after it to the far end.
    let config = Config { ignored_rectangles: vec![rect("all", -INCH, 0, INCH, INCH)] };
    let found = config.get_matching_rectangles("1", 0);
    assert_eq!(corners(&found[0]), (0, 0, i64::MAX, i64::MAX));
    // A page of negative height turns the scale round.
    let config = Config { ignored_rectangles: vec![rect("all", -INCH, -INCH, INCH, INCH)] };
    let found = config.get_matching_rectangles("1", -720);
    assert_eq!(corners(&found[0]), (200, 200, 0, 0));
}

#[test]
fn resolve_coordinate_clamps_at_zero() {
    assert_eq!(resolve_coordinate(INCH, 720), 200);
    assert_eq!(resolve_coordinate(0, 720), 0);
    assert_eq!(resolve_coordinate(-1, 720), 0);
    assert_eq!(resolve_coordinate(-INCH, 720), 0);
    assert_eq!(resolve_coordinate(i64::MIN, 1), 0);
    assert_eq!(resolve_coordinate(i64::MAX, 1), 1_328_165_573_307_087_716);
    assert_eq!(resolve_coordinate(-1, 0), 0);
    assert_eq!(resolve_coordinate(1, 0), i64::MAX);
    assert_eq!(resolve_coordinate(INCH, -720), 0);
    assert_eq!(resolve_coordinate(-INCH, -720), 200);
}

#[test]
fn to_pixels_exact_values() {
    assert_eq!(to_pixels(0, 792), 0);
    assert_eq!(to_pixels(INCH, 792), 182);
    assert_eq!(to_pixels(11 * INCH, 792), 2000);
    assert_eq!(to_pixels(INCH, 1440), 100);
    assert_eq!(to_pixels(MIL, 144), 1);
    assert_eq!(to_pixels(INCH / 4, 720), 50);
}

#[test]
fn to_pixels_keeps_fractions_of_a_thousandth() {
    // 1.2345 inch on a page of 792 points: 224.45.. pixels.
    assert_eq!(to_pixels(1_234_500, 792), 224);
    // 1.235 inch: 224.54.. pixels.
    assert_eq!(to_pixels(1_235_000, 792), 225);
    // On a page of 144000 points a pixel is a whole inch.
    assert_eq!(to_pixels(499_999, 144_000), 0);
    assert_eq!(to_pixels(500_000, 144_000), 1);
    assert_eq!(to_pixels(1_499_999, 144_000), 1);
    assert_eq!(to_pixels(1_500_000, 144_000), 2);
}

#[test]
fn to_pixels_rounds_to_nearest() {
    // 144 * mils / height
    assert_eq!(to_pixels(MIL, 576), 0); // 0.25
    assert_eq!(to_pixels(3 * MIL, 576), 1); // 0.75
    assert_eq!(to_pixels(5 * MIL, 576), 1); // 1.25
    assert_eq!(to_pixels(7 * MIL, 576), 2); // 1.75
    assert_eq!(to_pixels(2 * MIL - 1, 576), 0); // just under 0.5
    assert_eq!(to_pixels(2 * MIL + 1, 576), 1); // just over 0.5
}

#[test]
fn to_pixels_rounds_halves_away_from_zero() {
    assert_eq!(to_pixels(2 * MIL, 576), 1); // 0.5
    assert_eq!(to_pixels(6 * MIL, 576), 2); // 1.5
    assert_eq!(to_pixels(10 * MIL, 576), 3); // 2.5
    assert_eq!(to_pixels(-2 * MIL, 576), -1); // -0.5
    assert_eq!(to_pixels(-6 * MIL, 576), -2); // -1.5
}

#[test]
fn to_pixels_keeps_the_sign() {
    assert_eq!(to_pixels(-INCH, 792), -182);
    assert_eq!(to_pixels(INCH, -792), -182);
    assert_eq!(to_pixels(-INCH, -792), 182);
    assert_eq!(to_pixels(-MIL, 576), 0);
}

#[test]
fn to_pixels_on_a_page_without_height() {
    assert_eq!(to_pixels(0, 0), 0);
    assert_eq!(to_pixels(1, 0), i64::MAX);
    assert_eq!(to_pixels(-1, 0), i64::MIN);
}

#[test]
fn to_pixels_stays_in_range() {
    assert_eq!(to_pixels(i64::MAX, 1), 1_328_165_573_307_087_716);
    assert_eq!(to_pixels(i64::MIN, 1), -1_328_165_573_307_087_716);
    assert_eq!(to_pixels(i64::MAX, -1), -1_328_165_573_307_087_716);
    assert_eq!(to_pixels(i64::MAX, i32::MAX), 618_475_291);
    assert_eq!(to_pixels(i64::MIN, i32::MIN), 618_475_291);
}

#[test]
fn greater_coordinates_never_give_smaller_pixels() {
    for height in [1, 72, 576, 792, 1440, i32::MAX] {
        let mut last = to_pixels(-5000 * MIL, height);
        let mut last_resolved = resolve_coordinate(-5000 * MIL, height);
        for mils in -4999..=5000 {
            let next = to_pixels(mils * MIL, height);
            assert!(last <= next, "at {} on a page of {}", mils, height);
            last = next;
            let next_resolved = resolve_coordinate(mils * MIL, height);
            assert!(last_resolved <= next_resolved);
            last_resolved = next_resolved;
        }
    }
}

#[test]
fn to_pixels_is_nearest_to_the_exact_quotient() {
    for height in [1, 7, 576, 792, 1440] {
        for units in (-300_000..=300_000i64).step_by(997) {
            let pixels = to_pixels(units, height);
            // pixels is within a half of units * 144_000 / (1_000_000 * height).
            let off = (2 * (pixels * 1000 * height as i64 - units * 144)).abs();
            assert!(off <= 1000 * height as i64, "at {} on a page of {}", units, height);
        }
    }
}
