use pathtracer::fixed::Fixed;
use pathtracer::image::channel;
use pathtracer::image::push_decimal;
use pathtracer::image::write_color;
use pathtracer::image::write_header;
use pathtracer::vec3::Vec3;

fn fx(v: f64) -> Fixed {
    Fixed::from_raw((v * 4294967296.0).round() as i64)
}

fn v3(x: f64, y: f64, z: f64) -> Vec3 {
    Vec3::new(fx(x), fx(y), fx(z))
}

#[test]
fn channels_are_averaged_corrected_and_scaled() {
    assert_eq!(channel(fx(0.0), fx(1.0)), 0);
    assert_eq!(channel(fx(1.0), fx(1.0)), 255);
    assert_eq!(channel(fx(0.25), fx(1.0)), 128);
    assert_eq!(channel(fx(125.0), fx(500.0)), 128);
    assert_eq!(channel(fx(500.0), fx(500.0)), 255);
    assert_eq!(channel(fx(4.0), fx(1.0)), 255);
    assert_eq!(channel(fx(-1.0), fx(1.0)), 0);
    // sqrt(0.0625) = 0.25, and 256 * 0.25 = 64
    assert_eq!(channel(fx(0.0625), fx(1.0)), 64);
}

#[test]
fn decimal_digits() {
    let mut out = Vec::new();
    push_decimal(&mut out, 0);
    out.push(b' ');
    push_decimal(&mut out, 7);
    out.push(b' ');
    push_decimal(&mut out, 10);
    out.push(b' ');
    push_decimal(&mut out, 255);
    out.push(b' ');
    push_decimal(&mut out, 1200);
    out.push(b' ');
    push_decimal(&mut out, u32::MAX);
    assert_eq!(out, b"0 7 10 255 1200 4294967295".to_vec());
}

#[test]
fn a_pixel_becomes_a_line_of_three_numbers() {
    let mut out = b"P3\n".to_vec();
    write_color(&mut out, &v3(1.0, 0.0, 0.25), fx(1.0));
    assert_eq!(out, b"P3\n255 0 128\n".to_vec());
    write_color(&mut out, &v3(500.0, 125.0, 31.25), fx(500.0));
    assert_eq!(out, b"P3\n255 0 128\n255 128 64\n".to_vec());
}

#[test]
fn the_header_names_the_format_and_the_size() {
    let mut out = Vec::new();
    write_header(&mut out, 1200, 800);
    assert_eq!(out, b"P3\n1200 800\n255\n".to_vec());
}
