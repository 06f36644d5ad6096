use asdf_pixel_sort::PColor;

#[test]
fn test_pcolor_default() {
    let expected = PColor {
        red: 0,
        green: 0,
        blue: 0,
        alpha: 255,
    };
    assert_eq!(expected, PColor::default());
}

#[test]
fn test_pcolor_new() {
    let expected = PColor {
        red: 0,
        green: 127,
        blue: 255,
        alpha: 255,
    };
    assert_eq!(expected, PColor::new(0, 127, 255));
}

#[test]
fn test_pcolor_from_raw() {
    let expected = PColor {
        red: 11,
        green: 220,
        blue: 0,
        alpha: 255,
    };
    assert_eq!(expected, PColor::from_raw(-16000000));

    let expected = PColor {
        red: 57,
        green: 162,
        blue: 192,
        alpha: 255,
    };
    assert_eq!(expected, PColor::from_raw(-13000000));
}

#[test]
fn test_pcolor_with_alpha() {
    let expected = PColor {
        red: 128,
        green: 32,
        blue: 64,
        alpha: 96,
    };
    assert_eq!(expected, PColor::new(128, 32, 64).with_alpha(96));
}

#[test]
fn test_pcolor_val() {
    let expected = -16000000;
    assert_eq!(expected, PColor::new(11, 220, 0).as_raw());

    let expected = -13000000;
    assert_eq!(expected, PColor::new(57, 162, 192).as_raw());
}

#[test]
fn test_pcolor_brightness() {
    let expected = 220;
    assert_eq!(expected, PColor::new(11, 220, 0).brightness());

    let expected = 0;
    assert_eq!(expected, PColor::new(0, 0, 0).brightness());
}

#[test]
fn test_pcolor_cmp() {
    let c1 = PColor::new(11, 220, 0);
    let c2 = PColor::new(57, 162, 192);
    assert_eq!(std::cmp::Ordering::Less, c1.cmp(&c2));
    assert!(c1 < c2);
    assert_eq!(std::cmp::Ordering::Greater, c2.cmp(&c1));
    assert!(c2 > c1);
}

#[test]
fn test_pcolor_eq() {
    assert!(PColor::default().eq(&PColor::default()));
    assert!(PColor::default() == PColor::default());

    let c1 = PColor::new(57, 162, 192);
    let c2 = PColor::new(57, 162, 192);
    assert!(c1.eq(&c2));
    assert!(c2.eq(&c1));
    assert!(c1 == c2);
    assert!(c2 == c1);
}

#[test]
fn raw_round_trip_on_every_alpha() {
    for alpha in [0u8, 1, 127, 128, 200, 255] {
        let c = PColor::new(1, 2, 3).with_alpha(alpha);
        assert_eq!(c, PColor::from_raw(c.as_raw()));
    }
    for v in [i32::MIN, -1, 0, 1, 0x7f00_0000, i32::MAX, -16000000] {
        assert_eq!(v, PColor::from_raw(v).as_raw());
        assert_eq!(v, PColor::from(v).as_raw());
    }
}

#[test]
fn raw_of_opaque_and_transparent() {
    assert_eq!(-1, PColor::new(255, 255, 255).as_raw());
    assert_eq!(0x0102_0304, PColor::new(2, 3, 4).with_alpha(1).as_raw());
    assert_eq!(PColor::new(255, 255, 255), PColor::from_raw(-1));
}

#[test]
fn order_puts_alpha_first_and_signed() {
    let opaque = PColor::new(255, 255, 255);
    let clear = PColor::new(0, 0, 0).with_alpha(0);
    assert!(opaque < clear);
    assert_eq!(std::cmp::Ordering::Equal, opaque.cmp(&opaque));
    assert_eq!(Some(std::cmp::Ordering::Less), opaque.partial_cmp(&clear));
}

#[test]
fn brightness_is_largest_channel() {
    assert_eq!(200, PColor::new(200, 3, 4).brightness());
    assert_eq!(9, PColor::new(1, 2, 9).brightness());
    assert_eq!(255, PColor::new(255, 255, 255).brightness());
}
