use zipper_editor::viewport::{keep_cursor_in_view, SCROLL_STEP};
use zipper_editor::{Scroll, ScrollPosition};

#[test]
fn the_view_follows_a_focus_above_the_top() {
    assert_eq!(SCROLL_STEP, 12);
    assert_eq!(keep_cursor_in_view(-1, 0, 600, 0), Some(Scroll(12)));
    assert_eq!(keep_cursor_in_view(19, 0, 600, 20), Some(Scroll(12)));
}

#[test]
fn the_view_follows_a_focus_below_the_bottom() {
    assert_eq!(keep_cursor_in_view(601, 0, 600, 0), Some(Scroll(-12)));
    assert_eq!(keep_cursor_in_view(621, 0, 600, 20), Some(Scroll(-12)));
}

#[test]
fn the_view_rests_while_the_focus_is_in_bounds() {
    assert_eq!(keep_cursor_in_view(0, 0, 600, 0), None);
    assert_eq!(keep_cursor_in_view(600, 0, 600, 0), None);
    assert_eq!(keep_cursor_in_view(20, 0, 600, 20), None);
    assert_eq!(keep_cursor_in_view(620, 0, 600, 20), None);
    assert_eq!(keep_cursor_in_view(300, 0, 600, 20), None);
}

#[test]
fn following_does_not_overflow_at_the_limits() {
    assert_eq!(keep_cursor_in_view(i64::MAX, i64::MAX, i64::MAX, i64::MAX), Some(Scroll(12)));
    assert_eq!(keep_cursor_in_view(i64::MIN, i64::MIN, i64::MIN, i64::MIN), Some(Scroll(-12)));
    assert_eq!(keep_cursor_in_view(0, i64::MIN, i64::MAX, 0), None);
}

#[test]
fn a_new_position_shows_the_start() {
    assert_eq!(ScrollPosition::new().get(), 0);
}

#[test]
fn scrolling_accumulates_within_the_content() {
    let mut position = ScrollPosition::new();
    position.scroll(Scroll(-12), 1000, 600);
    assert_eq!(position.get(), -12);
    position.scroll(Scroll(-100), 1000, 600);
    assert_eq!(position.get(), -112);
    position.scroll(Scroll(12), 1000, 600);
    assert_eq!(position.get(), -100);
}

#[test]
fn scrolling_stops_at_the_start() {
    let mut position = ScrollPosition::new();
    position.scroll(Scroll(12), 1000, 600);
    assert_eq!(position.get(), 0);
    position.scroll(Scroll(-5), 1000, 600);
    position.scroll(Scroll(i64::MAX), 1000, 600);
    assert_eq!(position.get(), 0);
}

#[test]
fn scrolling_stops_at_the_end_of_the_content() {
    let mut position = ScrollPosition::new();
    position.scroll(Scroll(-399), 1000, 600);
    assert_eq!(position.get(), -399);
    position.scroll(Scroll(-12), 1000, 600);
    assert_eq!(position.get(), -400);
    position.scroll(Scroll(i64::MIN), 1000, 600);
    assert_eq!(position.get(), -400);
    position.scroll(Scroll(-1), u32::MAX, 0);
    assert_eq!(position.get(), -401);
    position.scroll(Scroll(i64::MIN), u32::MAX, 0);
    assert_eq!(position.get(), -(u32::MAX as i64));
}

#[test]
fn content_that_fits_does_not_scroll() {
    let mut position = ScrollPosition::new();
    position.scroll(Scroll(-12), 600, 600);
    assert_eq!(position.get(), 0);
    position.scroll(Scroll(-12), 100, 600);
    assert_eq!(position.get(), 0);
    position.scroll(Scroll(12), 0, 0);
    assert_eq!(position.get(), 0);
}

#[test]
fn a_shrunken_content_pulls_the_offset_back() {
    let mut position = ScrollPosition::new();
    position.scroll(Scroll(-300), 1000, 600);
    assert_eq!(position.get(), -300);
    position.scroll(Scroll(0), 700, 600);
    assert_eq!(position.get(), -100);
}
