use netpong::fixed::{clamp_to, div_toward_zero, quot_toward_zero};
use netpong::trig::{cos, normalize, sin, FULL_TURN, UNIT};

#[test]
fn sine_and_cosine_on_the_axes() {
    assert_eq!((sin(0), cos(0)), (0, UNIT));
    assert_eq!((sin(90_000), cos(90_000)), (UNIT, 0));
    assert_eq!((sin(180_000), cos(180_000)), (0, -UNIT));
    assert_eq!((sin(270_000), cos(270_000)), (-UNIT, 0));
}

#[test]
fn sine_and_cosine_at_multiples_of_thirty_degrees() {
    assert_eq!(sin(30_000), 500_000);
    assert_eq!(cos(60_000), 500_000);
    assert_eq!(sin(150_000), 500_000);
    assert_eq!(cos(120_000), -500_000);
    assert_eq!(sin(210_000), -500_000);
    assert_eq!(cos(300_000), 500_000);
    assert_eq!(sin(60_000), 866_025);
    assert_eq!(cos(30_000), 866_025);
    assert_eq!(sin(15_000), 258_819);
    assert_eq!(cos(15_000), 965_926);
}

#[test]
fn sine_and_cosine_on_the_diagonals() {
    assert_eq!((sin(45_000), cos(45_000)), (707_107, 707_107));
    assert_eq!((sin(135_000), cos(135_000)), (707_107, -707_107));
    assert_eq!((sin(225_000), cos(225_000)), (-707_107, -707_107));
    assert_eq!((sin(315_000), cos(315_000)), (-707_107, 707_107));
}

#[test]
fn sine_and_cosine_of_small_angles() {
    assert_eq!((sin(1), cos(1)), (17, 1_000_000));
    assert_eq!((sin(1_000), cos(1_000)), (17_452, 999_848));
    assert_eq!((sin(359_000), cos(359_000)), (-17_452, 999_848));
    assert_eq!((sin(10_000), cos(10_000)), (173_648, 984_808));
}

#[test]
fn mirroring_in_the_axes_is_exact_for_every_whole_degree() {
    let mut degree: i32 = 0;
    while degree < 360 {
        let a = degree * 1_000;
        let in_x = normalize((FULL_TURN - a) as i128);
        let in_y = normalize((180_000 - a) as i128);
        assert_eq!(sin(in_x), -sin(a));
        assert_eq!(cos(in_x), cos(a));
        assert_eq!(sin(in_y), sin(a));
        assert_eq!(cos(in_y), -cos(a));
        assert!(sin(a).abs() <= UNIT && cos(a).abs() <= UNIT);
        degree += 1;
    }
}

#[test]
fn sine_and_cosine_are_the_true_ones_rounded() {
    let mut a: i32 = 0;
    let mut worst: f64 = 0.0;
    while a < 360_000 {
        let radians = (a as f64 / 1_000.0).to_radians();
        let off = (sin(a) as f64 - radians.sin() * UNIT as f64).abs();
        assert!(off < 0.51, "sine at {}", a);
        worst = worst.max(off);
        let off = (cos(a) as f64 - radians.cos() * UNIT as f64).abs();
        assert!(off < 0.51, "cosine at {}", a);
        worst = worst.max(off);
        a += 1;
    }
    assert!(worst > 0.49);
}

#[test]
fn the_sine_rises_over_the_first_quarter_turn() {
    let mut a: i32 = 0;
    while a < 90_000 {
        assert!(sin(a) <= sin(a + 1));
        assert!(cos(a) >= cos(a + 1));
        a += 1;
    }
    assert_eq!(sin(44_999), 707_094);
    assert_eq!(sin(45_001), 707_119);
    assert_eq!(cos(44_999), 707_119);
}

#[test]
fn normalize_brings_any_angle_into_one_turn() {
    assert_eq!(normalize(0), 0);
    assert_eq!(normalize(360_000), 0);
    assert_eq!(normalize(359_999), 359_999);
    assert_eq!(normalize(-5), 359_995);
    assert_eq!(normalize(-360_000), 0);
    assert_eq!(normalize(725_000), 5_000);
    assert_eq!(normalize(-1_000_000_000_000_000_001), 79_999);
}

#[test]
fn division_rounds_toward_zero() {
    assert_eq!(div_toward_zero(7, 2), 3);
    assert_eq!(div_toward_zero(-7, 2), -3);
    assert_eq!(div_toward_zero(0, 5), 0);
    assert_eq!(quot_toward_zero(7, -2), -3);
    assert_eq!(quot_toward_zero(-7, -2), 3);
    assert_eq!(quot_toward_zero(-60_000_000, -30_000), 2_000);
}

#[test]
fn clamp_to_keeps_within_bounds() {
    assert_eq!(clamp_to(5, 10, 20), 10);
    assert_eq!(clamp_to(25, 10, 20), 20);
    assert_eq!(clamp_to(15, 10, 20), 15);
    assert_eq!(clamp_to(i128::MAX, -3, 3), 3);
    assert_eq!(clamp_to(i128::MIN, -3, 3), -3);
}

#[test]
fn sine_and_cosine_take_any_angle() {
    assert_eq!((sin(-90_000), cos(-90_000)), (-UNIT, 0));
    assert_eq!((sin(450_000), cos(450_000)), (UNIT, 0));
    assert_eq!((sin(360_000), cos(360_000)), (0, UNIT));
    assert_eq!(sin(-30_000), -500_000);
    assert_eq!(cos(720_000 + 60_000), 500_000);
    assert_eq!(sin(i32::MAX), sin(i32::MAX % 360_000));
    assert_eq!(cos(i32::MIN), cos(i32::MIN % 360_000 + 360_000));
}

#[test]
fn sine_and_cosine_lie_on_the_unit_circle_to_within_the_rounding() {
    let mut angle: i32 = 0;
    let mut least = i64::MAX;
    let mut most = 0;
    while angle < 360_000 {
        let sum = sin(angle) * sin(angle) + cos(angle) * cos(angle);
        assert!(999_998_000_000 <= sum && sum <= 1_000_002_000_000);
        least = least.min(sum);
        most = most.max(sum);
        angle += 1;
    }
    assert_eq!(least, 999_998_603_720);
    assert_eq!(most, 1_000_001_379_026);
    assert_eq!(sin(45_000) * sin(45_000) + cos(45_000) * cos(45_000), 1_000_000_618_898);
}
