use std::cell::RefCell;

use swrender::rectangle::Rectangle;

#[test]
fn visits_rows_from_below_then_columns() {
    let rect = Rectangle::new(0, 1, 0, 1);
    let seen = RefCell::new(Vec::new());
    let hit = rect.any_pixel(|x, y| {
        seen.borrow_mut().push((x, y));
        false
    });
    assert!(!hit);
    assert_eq!(seen.into_inner(), vec![(0, -1), (1, -1), (0, 0), (1, 0)]);
}

#[test]
fn stops_at_first_hit() {
    let rect = Rectangle::new(-2, 2, -2, 2);
    let seen = RefCell::new(0u32);
    let hit = rect.any_pixel(|x, y| {
        *seen.borrow_mut() += 1;
        x == 0 && y == -2
    });
    assert!(hit);
    // Row -3 holds five pixels, then (-2, -2), (-1, -2) and (0, -2).
    assert_eq!(seen.into_inner(), 8);
}

#[test]
fn empty_rectangle_visits_nothing() {
    let rect = Rectangle::new(3, 1, 0, 5);
    assert!(!rect.any_pixel(|_, _| true));
    let rect = Rectangle::new(0, 5, 4, 2);
    assert!(!rect.any_pixel(|_, _| true));
}

#[test]
fn single_row_rectangle() {
    let rect = Rectangle::new(5, 5, 8, 8);
    assert!(rect.any_pixel(|x, y| x == 5 && y == 7));
    assert!(!rect.any_pixel(|x, y| x == 5 && y == 8));
}
