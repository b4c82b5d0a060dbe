use match_pdf::compose::{can_compose, compose};
use match_pdf::raster::Bitmap;

const RED: (u8, u8, u8, u8) = (200, 10, 10, 255);
const BLUE: (u8, u8, u8, u8) = (10, 10, 200, 255);
const SEPARATOR: (u8, u8, u8, u8) = (0, 0, 0, 255);
const BLANK: (u8, u8, u8, u8) = (0, 0, 0, 0);

fn filled(width: u32, height: u32, color: (u8, u8, u8, u8)) -> Bitmap {
    let mut img = Bitmap::new(width, height).unwrap();
    for y in 0..height {
        for x in 0..width {
            img.set_pixel(x, y, color);
        }
    }
    img
}

#[test]
fn composite_is_as_wide_as_both_and_the_separator() {
    let a = filled(7, 5, RED);
    let b = filled(4, 5, BLUE);
    assert!(can_compose(&a, &b));
    let out = compose(&a, &b);
    assert_eq!(out.dimensions(), (12, 5));
}

#[test]
fn composite_holds_both_images_and_a_black_column() {
    let mut a = filled(7, 5, RED);
    a.set_pixel(0, 0, (1, 2, 3, 4));
    a.set_pixel(6, 4, (5, 6, 7, 8));
    let mut b = filled(4, 5, BLUE);
    b.set_pixel(0, 0, (11, 12, 13, 14));
    b.set_pixel(3, 4, (15, 16, 17, 18));
    let out = compose(&a, &b);
    for y in 0..5 {
        for x in 0..12 {
            let expected = if x < 7 {
                a.pixel(x, y)
            } else if x == 7 {
                Some(SEPARATOR)
            } else {
                b.pixel(x - 8, y)
            };
            assert_eq!(out.pixel(x, y), expected, "at {:?}", (x, y));
        }
    }
    assert_eq!(out.pixel(0, 0), Some((1, 2, 3, 4)));
    assert_eq!(out.pixel(6, 4), Some((5, 6, 7, 8)));
    assert_eq!(out.pixel(8, 0), Some((11, 12, 13, 14)));
    assert_eq!(out.pixel(11, 4), Some((15, 16, 17, 18)));
}

#[test]
fn composite_leaves_its_inputs_alone() {
    let a = filled(3, 3, RED);
    let b = filled(3, 3, BLUE);
    let _ = compose(&a, &b);
    for y in 0..3 {
        for x in 0..3 {
            assert_eq!(a.pixel(x, y), Some(RED));
            assert_eq!(b.pixel(x, y), Some(BLUE));
        }
    }
}

#[test]
fn shorter_second_image_leaves_blank_rows() {
    let a = filled(3, 4, RED);
    let b = filled(2, 2, BLUE);
    let out = compose(&a, &b);
    assert_eq!(out.dimensions(), (6, 4));
    for y in 0..4 {
        for x in 0..6 {
            let expected = if x < 3 {
                RED
            } else if x == 3 {
                SEPARATOR
            } else if y < 2 {
                BLUE
            } else {
                BLANK
            };
            assert_eq!(out.pixel(x, y), Some(expected), "at {:?}", (x, y));
        }
    }
}

#[test]
fn taller_second_image_is_cropped() {
    let a = filled(3, 2, RED);
    let mut b = filled(2, 5, BLUE);
    b.set_pixel(1, 1, (9, 9, 9, 9));
    let out = compose(&a, &b);
    assert_eq!(out.dimensions(), (6, 2));
    assert_eq!(out.pixel(5, 1), Some((9, 9, 9, 9)));
    assert_eq!(out.pixel(4, 1), Some(BLUE));
    assert_eq!(out.pixel(3, 1), Some(SEPARATOR));
    assert_eq!(out.pixel(0, 2), None);
}

#[test]
fn empty_images_compose_to_a_single_column() {
    let a = Bitmap::new(0, 3).unwrap();
    let b = Bitmap::new(0, 3).unwrap();
    let out = compose(&a, &b);
    assert_eq!(out.dimensions(), (1, 3));
    for y in 0..3 {
        assert_eq!(out.pixel(0, y), Some(SEPARATOR));
    }
    let flat = compose(&Bitmap::new(4, 0).unwrap(), &Bitmap::new(2, 0).unwrap());
    assert_eq!(flat.dimensions(), (7, 0));
}

#[test]
fn sizes_that_do_not_fit_cannot_be_composed() {
    let wide = Bitmap::new(u32::MAX, 0).unwrap();
    let narrow = Bitmap::new(0, 0).unwrap();
    assert!(!can_compose(&wide, &narrow));
    assert!(!can_compose(&narrow, &wide));
    let nearly = Bitmap::new(u32::MAX - 1, 0).unwrap();
    assert!(can_compose(&nearly, &narrow));
    assert!(can_compose(&narrow, &narrow));
}
