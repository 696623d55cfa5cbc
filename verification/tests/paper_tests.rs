use cells::paper::{Orientation, Paper, ISO216};

#[test]
fn test_from_iso216() {
    let portrait = Paper::from_iso216(ISO216::A0, Orientation::Portrait).unwrap();
    assert_eq!(portrait.w, 841, "{}", portrait.w);
    assert_eq!(portrait.h, 1189, "{}", portrait.h);
    let portrait = Paper::from_iso216(ISO216::A1, Orientation::Portrait).unwrap();
    assert_eq!(portrait.w, 594, "{}", portrait.w);
    assert_eq!(portrait.h, 841, "{}", portrait.h);
    let portrait = Paper::from_iso216(ISO216::A2, Orientation::Portrait).unwrap();
    assert_eq!(portrait.w, 420, "{}", portrait.w);
    assert_eq!(portrait.h, 594, "{}", portrait.h);
    let portrait = Paper::from_iso216(ISO216::A3, Orientation::Portrait).unwrap();
    assert_eq!(portrait.w, 297, "{}", portrait.w);
    assert_eq!(portrait.h, 420, "{}", portrait.h);
    let portrait = Paper::from_iso216(ISO216::A4, Orientation::Portrait).unwrap();
    assert_eq!(portrait.w, 210, "{}", portrait.w);
    assert_eq!(portrait.h, 297, "{}", portrait.h);

    let landscape = Paper::from_iso216(ISO216::A0, Orientation::Landscape).unwrap();
    assert_eq!(landscape.h, 841, "{}", portrait.h);
    assert_eq!(landscape.w, 1189, "{}", portrait.w);
}

#[test]
fn small_sizes_of_the_series() {
    let a5 = Paper::from_iso216(ISO216::A5, Orientation::Portrait).unwrap();
    assert_eq!((a5.w, a5.h), (148, 210));
    let a6 = Paper::from_iso216(ISO216::A6, Orientation::Landscape).unwrap();
    assert_eq!((a6.w, a6.h), (148, 105));
    let a7 = Paper::from_iso216(ISO216::A7, Orientation::Portrait).unwrap();
    assert_eq!((a7.w, a7.h), (74, 105));
    let a8 = Paper::from_iso216(ISO216::A8, Orientation::Portrait).unwrap();
    assert_eq!((a8.w, a8.h), (52, 74));
    assert_eq!(a8.size, ISO216::A8);
    assert_eq!(ISO216::A8.number(), 8);
    assert_eq!(ISO216::A0.number(), 0);
}

#[test]
fn pixels_count_whole_inches() {
    let paper = Paper::from_iso216(ISO216::A4, Orientation::Portrait).unwrap();
    assert_eq!(paper.pixel_dimensions(300), (2400, 3600));
    assert_eq!(paper.pixel_dimensions(0), (0, 0));
    assert_eq!(paper.pixel_dimensions(1), (8, 12));
}

#[test]
fn pixels_agree_with_rounding_in_floating_point() {
    for mm in [-2_000_000_000, -1189, -13, -12, -1, 0, 1, 12, 13, 38, 39, 210, 297, 841, 1189, i32::MAX] {
        for dpi in [0u16, 1, 72, 300, u16::MAX] {
            let paper = Paper { size: ISO216::A4, w: mm, h: mm };
            let inches = (mm as f64 / 25.4).round();
            let expected = (inches * dpi as f64) as u32;
            assert_eq!(paper.pixel_dimensions(dpi), (expected, expected), "{} {}", mm, dpi);
        }
    }
}

#[test]
fn sizes_are_named_by_their_number() {
    assert_eq!(ISO216::A0.to_string(), "A0");
    assert_eq!(ISO216::A4.to_string(), "A4");
    assert_eq!(ISO216::A8.to_string(), "A8");
}
