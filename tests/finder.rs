use asdf_pixel_sort::{get_first_x, get_first_y, get_next_x, get_next_y, Image, Mode, PColor};

fn image(width: u32, height: u32, data: &[u8]) -> Image {
    Image::from_raw(width, height, Vec::from(data)).unwrap()
}

fn black() -> Mode {
    Mode::Black(PColor::new(16, 16, 16))
}

fn white() -> Mode {
    Mode::White(PColor::new(192, 192, 192))
}

const BRIGHTNESS: Mode = Mode::Brightness(60);

#[test]
fn find_by_black_test_get_first_not_black_x() {
    let data = [
        0, 0, 0, //
        8, 8, 8, //
        16, 16, 16, //
        64, 64, 64, //
        8, 8, 8, //
        4, 4, 4, //
    ];
    let buf = image(6, 1, &data);

    let actual = get_first_x(&buf, 0, 0, &black());
    assert_eq!(actual, Some(2));

    let actual = get_first_x(&buf, 3, 0, &black());
    assert_eq!(actual, Some(3), "same with initial position");

    let actual = get_first_x(&buf, 4, 0, &black());
    assert_eq!(actual, None, "not found");

    // a start past the end is reported as found
    let actual = get_first_x(&buf, 6, 0, &black());
    assert_eq!(actual, Some(6), "out of bounds");
}

#[test]
fn find_by_black_test_get_next_black_x() {
    let data = [
        255, 255, 255, //
        196, 196, 196, //
        16, 16, 16, //
        64, 64, 64, //
        8, 8, 8, //
        196, 196, 196, //
        196, 196, 196, //
    ];
    let buf = image(7, 1, &data);

    let actual = get_next_x(&buf, 0, 0, &black());
    assert_eq!(actual, 1);

    let actual = get_next_x(&buf, 2, 0, &black());
    assert_eq!(actual, 3, "same with initial position");

    let actual = get_next_x(&buf, 5, 0, &black());
    assert_eq!(actual, 6, "not found");

    let actual = get_next_x(&buf, 6, 0, &black());
    assert_eq!(actual, 6, "out of bounds");
}

#[test]
fn find_by_black_test_get_first_not_black_y() {
    let data = [
        0, 0, 0, //
        8, 8, 8, //
        16, 16, 16, //
        64, 64, 64, //
        8, 8, 8, //
        4, 4, 4, //
    ];
    let buf = image(1, 6, &data);

    let actual = get_first_y(&buf, 0, 0, &black());
    assert_eq!(actual, Some(2));

    let actual = get_first_y(&buf, 0, 3, &black());
    assert_eq!(actual, Some(3), "same with initial position");

    let actual = get_first_y(&buf, 0, 4, &black());
    assert_eq!(actual, None, "not found");

    // a start past the end is reported as found
    let actual = get_first_y(&buf, 0, 6, &black());
    assert_eq!(actual, Some(6), "out of bounds");
}

#[test]
fn find_by_black_test_get_next_black_y() {
    let data = [
        255, 255, 255, //
        196, 196, 196, //
        16, 16, 16, //
        64, 64, 64, //
        8, 8, 8, //
        196, 196, 196, //
        196, 196, 196, //
    ];
    let buf = image(1, 7, &data);

    let actual = get_next_y(&buf, 0, 0, &black());
    assert_eq!(actual, 1);

    let actual = get_next_y(&buf, 0, 2, &black());
    assert_eq!(actual, 3, "same with initial position");

    let actual = get_next_y(&buf, 0, 5, &black());
    assert_eq!(actual, 6, "not found");

    let actual = get_next_y(&buf, 0, 6, &black());
    assert_eq!(actual, 6, "out of bounds");
}

#[test]
fn test_get_first_bright_x() {
    let data = [
        0, 0, 0, //
        16, 59, 6, //
        0, 60, 40, //
        24, 24, 24, //
        8, 8, 255, //
        4, 4, 4, //
    ];
    let buf = image(6, 1, &data);

    let actual = get_first_x(&buf, 0, 0, &BRIGHTNESS);
    assert_eq!(actual, Some(2));

    let actual = get_first_x(&buf, 2, 0, &BRIGHTNESS);
    assert_eq!(actual, Some(2), "same with start position");

    let actual = get_first_x(&buf, 3, 0, &BRIGHTNESS);
    assert_eq!(actual, Some(4), "non-zero start");

    let actual = get_first_x(&buf, 5, 0, &BRIGHTNESS);
    assert_eq!(actual, None, "not found");

    // a start past the end is reported as found
    let actual = get_first_x(&buf, 6, 0, &BRIGHTNESS);
    assert_eq!(actual, Some(6), "out of bounds");
}

#[test]
fn test_get_next_dark_x() {
    let data = [
        255, 255, 255, //
        32, 196, 0, //
        0, 60, 0, //
        0, 0, 0, //
        8, 255, 8, //
        196, 196, 196, //
        196, 196, 196, //
    ];
    let buf = image(7, 1, &data);

    let actual = get_next_x(&buf, 0, 0, &BRIGHTNESS);
    assert_eq!(actual, 1);

    let actual = get_next_x(&buf, 2, 0, &BRIGHTNESS);
    assert_eq!(actual, 2, "skip start position even if it's dark");

    let actual = get_next_x(&buf, 3, 0, &BRIGHTNESS);
    assert_eq!(actual, 6, "not found");

    let actual = get_next_x(&buf, 6, 0, &BRIGHTNESS);
    assert_eq!(actual, 6, "out of bounds");
}

#[test]
fn test_get_first_bright_y() {
    let data = [
        0, 0, 4, //
        0, 8, 12, //
        0, 60, 0, //
        16, 16, 16, //
        8, 8, 8, //
        4, 4, 4, //
    ];
    let buf = image(1, 6, &data);

    let actual = get_first_y(&buf, 0, 0, &BRIGHTNESS);
    assert_eq!(actual, Some(2));

    let actual = get_first_y(&buf, 0, 2, &BRIGHTNESS);
    assert_eq!(actual, Some(2), "same with initial position");

    let actual = get_first_y(&buf, 0, 3, &BRIGHTNESS);
    assert_eq!(actual, None, "not found");

    // a start past the end is reported as found
    let actual = get_first_y(&buf, 0, 6, &BRIGHTNESS);
    assert_eq!(actual, Some(6), "out of bounds");
}

#[test]
fn test_get_next_dark_y() {
    let data = [
        255, 0, 255, //
        0, 0, 196, //
        0, 60, 0, //
        60, 0, 0, //
        8, 8, 8, //
        196, 196, 196, //
        196, 196, 196, //
    ];
    let buf = image(1, 7, &data);

    let actual = get_next_y(&buf, 0, 0, &BRIGHTNESS);
    assert_eq!(actual, 1);

    let actual = get_next_y(&buf, 0, 2, &BRIGHTNESS);
    assert_eq!(actual, 2, "same with initial position");

    let actual = get_next_y(&buf, 0, 5, &BRIGHTNESS);
    assert_eq!(actual, 6, "not found");

    let actual = get_next_y(&buf, 0, 6, &BRIGHTNESS);
    assert_eq!(actual, 6, "out of bounds");
}

#[test]
fn test_get_first_not_white_x() {
    let data = [
        255, 255, 255, //
        193, 193, 193, //
        192, 192, 192, //
        191, 191, 191, //
        248, 248, 248, //
        255, 255, 255, //
    ];
    let buf = image(6, 1, &data);

    let actual = get_first_x(&buf, 0, 0, &white());
    assert_eq!(Some(2), actual);

    let actual = get_first_x(&buf, 3, 0, &white());
    assert_eq!(Some(3), actual, "same with start position");

    let actual = get_first_x(&buf, 4, 0, &white());
    assert_eq!(None, actual, "not found");

    // a start past the end is reported as found
    let actual = get_first_x(&buf, 6, 0, &white());
    assert_eq!(Some(6), actual, "out of bounds");
}

#[test]
fn test_get_next_white_x() {
    let data = [
        0, 0, 0, //
        191, 191, 191, //
        192, 192, 192, //
        8, 8, 8, //
        255, 255, 255, //
        4, 4, 4, //
        4, 4, 4, //
    ];
    let buf = image(7, 1, &data);

    let actual = get_next_x(&buf, 0, 0, &white());
    assert_eq!(1, actual);

    let actual = get_next_x(&buf, 2, 0, &white());
    assert_eq!(3, actual, "skip start position even if it's white");

    let actual = get_next_x(&buf, 5, 0, &white());
    assert_eq!(6, actual, "not found");

    let actual = get_next_x(&buf, 6, 0, &white());
    assert_eq!(6, actual, "out of bounds");
}

#[test]
fn test_get_first_not_white_y() {
    let data = [
        255, 255, 255, //
        193, 193, 193, //
        192, 192, 192, //
        191, 191, 191, //
        248, 248, 248, //
        255, 255, 255, //
    ];
    let buf = image(1, 6, &data);

    let actual = get_first_y(&buf, 0, 0, &white());
    assert_eq!(Some(2), actual);

    let actual = get_first_y(&buf, 0, 3, &white());
    assert_eq!(Some(3), actual, "same with start position");

    let actual = get_first_y(&buf, 0, 4, &white());
    assert_eq!(None, actual, "not found");

    // a start past the end is reported as found
    let actual = get_first_y(&buf, 0, 6, &white());
    assert_eq!(Some(6), actual, "out of bounds");
}

#[test]
fn test_get_next_white_y() {
    let data = [
        0, 0, 0, //
        191, 191, 191, //
        192, 192, 192, //
        8, 8, 8, //
        255, 255, 255, //
        4, 4, 4, //
        4, 4, 4, //
    ];
    let buf = image(1, 7, &data);

    let actual = get_next_y(&buf, 0, 0, &white());
    assert_eq!(1, actual);

    let actual = get_next_y(&buf, 0, 2, &white());
    assert_eq!(3, actual, "skip start position even if it's white");

    let actual = get_next_y(&buf, 0, 5, &white());
    assert_eq!(6, actual, "not found");

    let actual = get_next_y(&buf, 0, 6, &white());
    assert_eq!(6, actual, "out of bounds");
}

#[test]
fn finder_test_get_first_not_black_x() {
    let data = [
        0, 0, 0, //
        8, 8, 8, //
        16, 16, 16, //
        64, 64, 64, //
        8, 8, 8, //
        4, 4, 4, //
    ];
    let buf = image(6, 1, &data);

    let actual = get_first_x(&buf, 0, 0, &black());
    assert_eq!(actual, Some(2));

    let actual = get_first_x(&buf, 3, 0, &black());
    assert_eq!(actual, Some(3), "same with initial position");

    let actual = get_first_x(&buf, 4, 0, &black());
    assert_eq!(actual, None, "not found");

    // a start past the end is reported as found
    let actual = get_first_x(&buf, 6, 0, &black());
    assert_eq!(actual, Some(6), "out of bounds");
}

#[test]
fn finder_test_get_next_black_x() {
    let data = [
        255, 255, 255, //
        196, 196, 196, //
        16, 16, 16, //
        64, 64, 64, //
        8, 8, 8, //
        196, 196, 196, //
        196, 196, 196, //
    ];
    let buf = image(7, 1, &data);

    let actual = get_next_x(&buf, 0, 0, &black());
    assert_eq!(actual, 1);

    let actual = get_next_x(&buf, 2, 0, &black());
    assert_eq!(actual, 3, "same with initial position");

    let actual = get_next_x(&buf, 5, 0, &black());
    assert_eq!(actual, 6, "not found");

    let actual = get_next_x(&buf, 6, 0, &black());
    assert_eq!(actual, 6, "out of bounds");
}

#[test]
fn finder_test_get_first_not_black_y() {
    let data = [
        0, 0, 0, //
        8, 8, 8, //
        16, 16, 16, //
        64, 64, 64, //
        8, 8, 8, //
        4, 4, 4, //
    ];
    let buf = image(1, 6, &data);

    let actual = get_first_y(&buf, 0, 0, &black());
    assert_eq!(actual, Some(2));

    let actual = get_first_y(&buf, 0, 3, &black());
    assert_eq!(actual, Some(3), "same with initial position");

    let actual = get_first_y(&buf, 0, 4, &black());
    assert_eq!(actual, None, "not found");

    // a start past the end is reported as found
    let actual = get_first_y(&buf, 0, 6, &black());
    assert_eq!(actual, Some(6), "out of bounds");
}

#[test]
fn finder_test_get_next_black_y() {
    let data = [
        255, 255, 255, //
        196, 196, 196, //
        16, 16, 16, //
        64, 64, 64, //
        8, 8, 8, //
        196, 196, 196, //
        196, 196, 196, //
    ];
    let buf = image(1, 7, &data);

    let actual = get_next_y(&buf, 0, 0, &black());
    assert_eq!(actual, 1);

    let actual = get_next_y(&buf, 0, 2, &black());
    assert_eq!(actual, 3, "same with initial position");

    let actual = get_next_y(&buf, 0, 5, &black());
    assert_eq!(actual, 6, "not found");

    let actual = get_next_y(&buf, 0, 6, &black());
    assert_eq!(actual, 6, "out of bounds");
}
