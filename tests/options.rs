use asdf_pixel_sort::{Direction, Mode, Options, PColor};

#[test]
fn test_options_default() {
    let expected = Options {
        mode: Mode::Brightness(60),
        direction: Direction::Both,
    };
    assert_eq!(expected, Options::default());
}

#[test]
fn test_mode_default() {
    let expected = Mode::Brightness(60);
    assert_eq!(expected, Mode::default());
}

#[test]
fn test_mode_black() {
    let color = PColor::new(11, 220, 0);
    let expected = Mode::Black(color);
    assert_eq!(expected, Mode::black());
}

#[test]
fn test_mode_brightness() {
    let value = 60;
    let expected = Mode::Brightness(value);
    assert_eq!(expected, Mode::brightness());
}

#[test]
fn test_mode_white() {
    let color = PColor::new(57, 162, 192);
    let expected = Mode::White(color);
    assert_eq!(expected, Mode::white());
}

#[test]
fn direction_axes() {
    assert!(Direction::Both.has_column() && Direction::Both.has_row());
    assert!(Direction::Column.has_column() && !Direction::Column.has_row());
    assert!(!Direction::Row.has_column() && Direction::Row.has_row());
    assert_eq!(Direction::Both, Direction::default());
}
