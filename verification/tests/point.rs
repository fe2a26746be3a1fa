use boids::angle::{HALF_PI, PI, TWO_PI};
use boids::point::Point;

#[test]
fn set_replaces_both_coordinates() {
    let mut p = Point { x: 1, y: 2 };
    p.set(30, -40);
    assert_eq!(p, Point { x: 30, y: -40 });
}

#[test]
fn mutators_chain() {
    let mut p = Point { x: 1_000_000, y: 2_000_000 };
    p.add_to(&Point { x: 2_000_000, y: 3_000_000 })
        .sub_to(&Point { x: 500_000, y: 500_000 })
        .scale_to(2_000_000);
    assert_eq!(p, Point { x: 5_000_000, y: 9_000_000 });
    p.set(0, 0).add_num_to(7);
    assert_eq!(p, Point { x: 7, y: 7 });
}

#[test]
fn add_and_sub_are_exact() {
    let a = Point { x: 1_000, y: 2_000 };
    let b = Point { x: 500, y: -4_000 };
    assert_eq!(a.add(&b), Point { x: 1_500, y: -2_000 });
    assert_eq!(a.sub(&b), Point { x: 500, y: 6_000 });
    assert_eq!(a.add(&b).sub(&b), a);
    let mut c = a;
    c.add_to(&b);
    assert_eq!(c, a.add(&b));
    let mut d = a;
    d.sub_to(&b);
    assert_eq!(d, a.sub(&b));
}

#[test]
fn add_num_moves_both_coordinates() {
    let a = Point { x: 1_000, y: -2_000 };
    assert_eq!(a.add_num(250), Point { x: 1_250, y: -1_750 });
    let mut b = a;
    b.add_num_to(-1_000);
    assert_eq!(b, Point { x: 0, y: -3_000 });
}

#[test]
fn scale_rounds_toward_zero() {
    assert_eq!(Point { x: 3_000_000, y: -1_000_001 }.scale(2_500_000), Point { x: 7_500_000, y: -2_500_002 });
    assert_eq!(Point { x: -1_000_001, y: 7 }.scale(1_500_000), Point { x: -1_500_001, y: 10 });
    assert_eq!(Point { x: 7, y: -7 }.scale(500_000), Point { x: 3, y: -3 });
    let mut p = Point { x: 600_000, y: 800_000 };
    p.scale_to(10_000_000);
    assert_eq!(p, Point { x: 6_000_000, y: 8_000_000 });
}

#[test]
fn pow_raises_each_coordinate() {
    assert_eq!(Point { x: 2_000_000, y: -1_500_000 }.pow(3), Point { x: 8_000_000, y: -3_375_000 });
    assert_eq!(Point { x: 500_000, y: -2_000_000 }.pow(2), Point { x: 250_000, y: 4_000_000 });
    assert_eq!(Point { x: 12_345_000, y: 0 }.pow(0), Point { x: 1_000_000, y: 1_000_000 });
    assert_eq!(Point { x: 12_345_000, y: -7 }.pow(1), Point { x: 12_345_000, y: -7 });
}

#[test]
fn pow_to_changes_the_vector() {
    let mut p = Point { x: 2_000_000, y: 3_000_000 };
    p.pow_to(2);
    assert_eq!(p, Point { x: 4_000_000, y: 9_000_000 });
}

#[test]
fn powf_takes_roots() {
    assert_eq!(Point { x: 4_000_000, y: 0 }.powf(2), Some(Point { x: 2_000_000, y: 0 }));
    assert_eq!(Point { x: 8_000_000, y: 1_000_000 }.powf(3), Some(Point { x: 2_000_000, y: 1_000_000 }));
    assert_eq!(Point { x: 32_000_000, y: 1 }.powf(5), Some(Point { x: 2_000_000, y: 63_095 }));
    assert_eq!(Point { x: 2_000_000, y: 3_000_000 }.powf(2), Some(Point { x: 1_414_213, y: 1_732_050 }));
    assert_eq!(Point { x: 123, y: 456 }.powf(1), Some(Point { x: 123, y: 456 }));
}

#[test]
fn powf_is_undefined_for_negative_coordinates_and_degree_zero() {
    assert_eq!(Point { x: -1, y: 4_000 }.powf(2), None);
    assert_eq!(Point { x: 4_000, y: -1 }.powf(5), None);
    assert_eq!(Point { x: 4_000, y: 4_000 }.powf(0), None);
}

#[test]
fn powf_to_changes_the_vector() {
    let mut p = Point { x: 9_000_000, y: 16_000_000 };
    p.powf_to(2);
    assert_eq!(p, Point { x: 3_000_000, y: 4_000_000 });
    p.powf_to(2).scale_to(2_000_000);
    assert_eq!(p, Point { x: 3_464_100, y: 4_000_000 });
}

#[test]
fn a_power_of_two_thirds_is_a_square_then_a_cube_root() {
    let p = Point { x: 8_000_000, y: 27_000_000 };
    assert_eq!(p.pow(2).powf(3), Some(Point { x: 4_000_000, y: 9_000_000 }));
}

#[test]
fn pow_takes_negative_powers() {
    assert_eq!(Point { x: 2_000_000, y: -4_000_000 }.pow(-1), Point { x: 500_000, y: -250_000 });
    assert_eq!(Point { x: 2_000_000, y: -2_000_000 }.pow(-3), Point { x: 125_000, y: -125_000 });
    assert_eq!(Point { x: 500_000, y: 3_000_000 }.pow(-2), Point { x: 4_000_000, y: 111_111 });
    let mut q = Point { x: 3_000_000, y: 1_000_000 };
    q.pow_to(-1);
    assert_eq!(q, Point { x: 333_333, y: 1_000_000 });
}

#[test]
fn magnitude_rounds_down() {
    assert_eq!(Point { x: 3_000, y: 4_000 }.magnitude(), 5_000);
    assert_eq!(Point { x: -5, y: 12 }.magnitude(), 13);
    assert_eq!(Point { x: 1, y: 1 }.magnitude(), 1);
    assert_eq!(Point { x: 2_000_000, y: -2_000_000 }.magnitude(), 2_828_427);
    assert_eq!(Point { x: 0, y: 0 }.magnitude(), 0);
}

#[test]
fn magnitude_of_the_largest_coordinates() {
    let p = Point { x: i64::MIN, y: i64::MIN };
    assert_eq!(p.magnitude(), 13_043_817_825_332_782_212);
}

#[test]
fn normalize_on_zero_vector_returns_zero() {
    let mut p = Point { x: 0, y: 0 };
    p.normalize();
    assert_eq!(p, Point { x: 0, y: 0 });
}

#[test]
fn normalize_scales_to_unit_length() {
    let mut p = Point { x: 3_000_000, y: 4_000_000 };
    p.normalize();
    assert_eq!(p, Point { x: 600_000, y: 800_000 });
    let mut q = Point { x: -7, y: 0 };
    q.normalize();
    assert_eq!(q, Point { x: -1_000_000, y: 0 });
    let mut r = Point { x: 2_000_000, y: -2_000_000 };
    r.normalize();
    assert_eq!(r, Point { x: 707_107, y: -707_107 });
    let mut s = Point { x: 0, y: -9 };
    s.normalize().scale_to(60_000_000);
    assert_eq!(s, Point { x: 0, y: -60_000_000 });
    let mut t = Point { x: i64::MAX, y: i64::MIN };
    t.normalize();
    assert_eq!(t, Point { x: 707_107, y: -707_107 });
}

#[test]
fn normalize_is_as_exact_for_short_vectors_as_for_long_ones() {
    let mut short = Point { x: 1_000, y: 1_000 };
    short.normalize();
    assert_eq!(short, Point { x: 707_107, y: 707_107 });
    let mut shortest = Point { x: 1, y: -1 };
    shortest.normalize();
    assert_eq!(shortest, Point { x: 707_107, y: -707_107 });
    let mut x: i64 = -2_000;
    while x <= 2_000 {
        let mut y: i64 = -2_000;
        while y <= 2_000 {
            if x != 0 || y != 0 {
                let mut p = Point { x, y };
                p.normalize();
                let m = ((x * x + y * y) as f64).sqrt();
                assert!((p.x as f64 / 1e6 - x as f64 / m).abs() <= 1e-6);
                assert!((p.y as f64 / 1e6 - y as f64 / m).abs() <= 1e-6);
                let length = ((p.x as f64).powi(2) + (p.y as f64).powi(2)).sqrt() / 1e6;
                assert!((length - 1.0).abs() <= 1e-6, "length {}", length);
            }
            y += 97;
        }
        x += 89;
    }
}

#[test]
fn with_length_divides_once() {
    let v = Point { x: 40_000_000, y: 50_000_000 };
    let pulled = v.with_length(60_000_000);
    assert_eq!(pulled, Point { x: 37_481_703, y: 46_852_129 });
    assert!((pulled.x as f64 / 1e6 - 37.481703).abs() <= 1e-5);
    assert!((pulled.y as f64 / 1e6 - 46.852129).abs() <= 1e-5);
    assert_eq!(Point { x: 0, y: 0 }.with_length(60_000_000), Point { x: 0, y: 0 });
    assert_eq!(Point { x: 5, y: 0 }.with_length(0), Point { x: 0, y: 0 });
    assert_eq!(Point { x: -3, y: 0 }.with_length(i64::MAX / 4), Point { x: -(i64::MAX / 4), y: 0 });
}

#[test]
fn angle_on_the_axes() {
    assert_eq!(Point { x: 1_000, y: 0 }.angle(), 0);
    assert_eq!(Point { x: 0, y: 1_000 }.angle(), HALF_PI);
    assert_eq!(Point { x: -1_000, y: 0 }.angle(), PI);
    assert_eq!(Point { x: 0, y: -1_000 }.angle(), 3 * HALF_PI);
}

#[test]
fn angle_on_the_diagonals() {
    assert_eq!(Point { x: 1_000, y: 1_000 }.angle(), 785_398_163);
    assert_eq!(Point { x: -1_000, y: 1_000 }.angle(), 2_356_194_489);
    assert_eq!(Point { x: -1_000, y: -1_000 }.angle(), 3_926_990_815);
    assert_eq!(Point { x: 1_000, y: -1_000 }.angle(), 5_497_787_141);
}

#[test]
fn angle_of_the_zero_vector_is_zero() {
    assert_eq!(Point { x: 0, y: 0 }.angle(), 0);
}

#[test]
fn angle_exact_values() {
    assert_eq!(Point { x: 3_000, y: 4_000 }.angle(), 927_295_217);
    assert_eq!(Point { x: -3_000, y: 4_000 }.angle(), 2_214_297_435);
    assert_eq!(Point { x: 5, y: -12 }.angle(), 5_107_180_098);
    assert_eq!(Point { x: 1_000_000_000, y: -1 }.angle(), 6_283_185_303);
    assert_eq!(Point { x: -2, y: -1 }.angle(), 3_605_240_261);
}

#[test]
fn angle_of_three_and_four() {
    let got = Point { x: 3_000_000, y: 4_000_000 }.angle() as f64 / 1e9;
    assert!((got - 0.927295218).abs() <= 1e-8);
}

#[test]
fn angle_follows_the_four_quadrant_arctangent() {
    let mut worst: f64 = 0.0;
    let mut x: i64 = -2_000;
    while x <= 2_000 {
        let mut y: i64 = -2_000;
        while y <= 2_000 {
            if x != 0 || y != 0 {
                let got = Point { x, y }.angle();
                assert!(0 <= got && got < TWO_PI);
                let mut want = (y as f64).atan2(x as f64);
                if want < 0.0 {
                    want += 2.0 * std::f64::consts::PI;
                }
                let mut error = (got as f64 / 1e9 - want).abs();
                if error > std::f64::consts::PI {
                    error = 2.0 * std::f64::consts::PI - error;
                }
                if error > worst {
                    worst = error;
                }
            }
            y += 37;
        }
        x += 41;
    }
    assert!(worst < 0.000_000_01, "worst error {}", worst);
}
