//! Tuples, rays, colors and the canvas.

use tracer_math::canvas::Canvas;
use tracer_math::color::Color;
use tracer_math::ray::Ray;
use tracer_math::tuple::Tuple;

fn units(v: f64) -> i128 {
    (v * 100_000.0).round() as i128
}

fn point(x: f64, y: f64, z: f64) -> Tuple {
    Tuple::point(units(x), units(y), units(z))
}

fn vector(x: f64, y: f64, z: f64) -> Tuple {
    Tuple::vector(units(x), units(y), units(z))
}

#[test]
fn test_canvas() {
    let mut c = Canvas::new(3, 3);
    let black = Color::new(0, 0, 0);
    let red = Color::new(units(1.0), 0, 0);

    assert_eq!(c.width, 3);
    assert_eq!(c.height, 3);

    for pixel in c.pixels.iter() {
        assert_eq!(*pixel, black);
    }

    c.pixels = vec![black, red, black, black, red, black, black, black, black];

    assert_eq!(c.pixel_at(1, 0), red);
    assert_eq!(c.pixel_at(1, 1), red);
}

#[test]
fn test_write_pixel_canvas() {
    let mut c = Canvas::new(10, 20);
    let p1 = Color::new(units(1.0), units(2.0), units(3.0));
    let p2 = Color::new(units(2.0), units(3.0), units(4.0));

    c.write_pixel(3, 4, p1);
    c.write_pixel(6, 9, p2);

    assert_eq!(c.pixel_at(3, 4), p1);
    assert_eq!(c.pixel_at(6, 9), p2);
}

#[test]
fn test_color_to_int() {
    assert_eq!(Color::new(units(1.5), 0, 0).to_int(255), (255, 0, 0));
    assert_eq!(
        Color::new(0, units(0.5), units(-0.5)).to_int(255),
        (0, 128, 0)
    );
    assert_eq!(Color::new(0, 0, units(1.0)).to_int(255), (0, 0, 255));
}

#[test]
fn test_create_ray() {
    let origin = point(1.0, 2.0, 3.0);
    let direction = vector(4.0, 5.0, 6.0);
    let r = Ray::new(origin, direction);

    assert_eq!(r.origin, origin);
    assert_eq!(r.direction, direction);
}

#[test]
fn test_position() {
    let r = Ray::new(point(2.0, 3.0, 4.0), vector(1.0, 0.0, 0.0));

    assert_eq!(r.position(units(0.0)), point(2.0, 3.0, 4.0));
    assert_eq!(r.position(units(1.0)), point(3.0, 3.0, 4.0));
    assert_eq!(r.position(units(-1.0)), point(1.0, 3.0, 4.0));
    assert_eq!(r.position(units(2.5)), point(4.5, 3.0, 4.0));
}

#[test]
fn test_tuple_discriminants() {
    assert!(point(1.0, 2.0, 3.0).is_point());
    assert!(!point(1.0, 2.0, 3.0).is_vector());
    assert!(vector(1.0, 2.0, 3.0).is_vector());
    assert!(!vector(1.0, 2.0, 3.0).is_point());
    assert!(Tuple::new(0, 0, 0, units(1.0005)).is_point());
    assert!(!Tuple::new(0, 0, 0, units(1.002)).is_point());
}

#[test]
fn test_tuple_arithmetic() {
    let a = Tuple::new(units(3.0), units(-2.0), units(5.0), units(1.0));
    let b = Tuple::new(units(-2.0), units(3.0), units(1.0), units(0.0));

    assert_eq!(a.add(&b), Tuple::new(units(1.0), units(1.0), units(6.0), units(1.0)));
    assert_eq!(a.sub(&b), Tuple::new(units(5.0), units(-5.0), units(4.0), units(1.0)));
    assert_eq!(
        b.negate(),
        Tuple::new(units(2.0), units(-3.0), units(-1.0), units(0.0))
    );
}

#[test]
fn test_tuple_scaling() {
    let a = Tuple::new(units(1.0), units(-2.0), units(3.0), units(-4.0));

    assert_eq!(
        a.mul_scalar(units(3.5)),
        Tuple::new(units(3.5), units(-7.0), units(10.5), units(-14.0))
    );
    assert_eq!(
        a.div_scalar(units(2.0)),
        Tuple::new(units(0.5), units(-1.0), units(1.5), units(-2.0))
    );
}
