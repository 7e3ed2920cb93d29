use disquiet::color::{aces, srgb_byte, to_rgba, Color, Color3, Rgba};
use disquiet::hdr;
use disquiet::error::Error;
use disquiet::image::{Image, RgbaImage};
use disquiet::math::{atan2_fp, clamp, fp_div, fp_mul, fp_sqrt, fp_trunc, isqrt, max, min, modulo, FP_ONE, FP_PI};
use disquiet::random::RandomGenerator;
use disquiet::vector::{Ray, Vector3};

#[test]
fn fixed_point_products() {
    assert_eq!(fp_mul(FP_ONE, FP_ONE), FP_ONE);
    assert_eq!(fp_mul(2 * FP_ONE, 3 * FP_ONE), 6 * FP_ONE);
    assert_eq!(fp_mul(-2 * FP_ONE, 3 * FP_ONE), -6 * FP_ONE);
    assert_eq!(fp_mul(FP_ONE / 2, FP_ONE / 2), FP_ONE / 4);
    assert_eq!(fp_div(6 * FP_ONE, 3 * FP_ONE), 2 * FP_ONE);
    assert_eq!(fp_div(-6 * FP_ONE, 3 * FP_ONE), -2 * FP_ONE);
    assert_eq!(fp_div(FP_ONE, 2 * FP_ONE), FP_ONE / 2);
    assert_eq!(fp_mul(i64::MAX, i64::MAX), i64::MAX);
}

#[test]
fn scalar_helpers() {
    assert_eq!(min(3, 5), 3);
    assert_eq!(max(3, 5), 5);
    assert_eq!(clamp(7, 0, 5), 5);
    assert_eq!(clamp(-7, 0, 5), 0);
    assert_eq!(clamp(3, 0, 5), 3);
    assert_eq!(modulo(7, 5), 2);
    assert_eq!(modulo(-1, 5), 4);
    assert_eq!(modulo(-5, 5), 0);
    assert_eq!(fp_trunc(3 * FP_ONE + 17), 3);
    assert_eq!(fp_trunc(-(3 * FP_ONE + 17)), -3);
}

#[test]
fn integer_square_roots() {
    assert_eq!(isqrt(0), 0);
    assert_eq!(isqrt(1), 1);
    assert_eq!(isqrt(15), 3);
    assert_eq!(isqrt(16), 4);
    assert_eq!(isqrt(1 << 36), 1 << 18);
    assert_eq!(fp_sqrt(4 * FP_ONE), 2 * FP_ONE);
    assert_eq!(fp_sqrt(16 * FP_ONE), 4 * FP_ONE);
}

#[test]
fn atan2_quadrants() {
    assert_eq!(atan2_fp(0, 0), 0);
    assert_eq!(atan2_fp(0, FP_ONE), 0);
    let quarter = atan2_fp(FP_ONE, FP_ONE);
    assert!((quarter - FP_PI / 4).abs() < 2000, "{quarter}");
    let half = atan2_fp(FP_ONE, 0);
    assert!((half - FP_PI / 2).abs() < 2000, "{half}");
    let back = atan2_fp(0, -FP_ONE);
    assert!((back - FP_PI).abs() < 2000, "{back}");
    assert!(atan2_fp(-FP_ONE, FP_ONE) < 0);
}

#[test]
fn vector_algebra() {
    let a = Vector3::new(FP_ONE, 0, 0);
    let b = Vector3::new(0, FP_ONE, 0);
    assert_eq!(a.dot(&b), 0);
    assert_eq!(a.dot(&a), FP_ONE);
    let c = a.cross(&b);
    assert_eq!(c, Vector3::new(0, 0, FP_ONE));
    let s = a.add(&b);
    assert_eq!(s, Vector3::new(FP_ONE, FP_ONE, 0));
    let n = Vector3::new(3 * FP_ONE, 4 * FP_ONE, 0);
    assert_eq!(n.len(), 5 * FP_ONE);
    let u = n.normalize();
    let l = u.len_squared();
    assert!((l - FP_ONE).abs() < 1000, "{l}");
    assert_eq!(Vector3::new(0, 0, 0).normalize(), Vector3::new(0, 0, 0));
}

#[test]
fn ray_points() {
    let r = Ray { origin: Vector3::new(FP_ONE, 0, 0), direction: Vector3::new(0, 0, FP_ONE) };
    assert_eq!(r.point_at(3 * FP_ONE), Vector3::new(FP_ONE, 0, 3 * FP_ONE));
}

#[test]
fn tone_mapping_range() {
    let black = aces(&Color3::new(0, 0, 0));
    assert_eq!(black, Color3::new(0, 0, 0));
    let bright = aces(&Color3::new(100 * FP_ONE, 100 * FP_ONE, 100 * FP_ONE));
    assert!(bright.r <= FP_ONE && bright.r >= 0);
    assert_eq!(srgb_byte(0), 0);
    assert_eq!(srgb_byte(FP_ONE), 255);
    assert_eq!(srgb_byte(FP_ONE / 4), 127);
    let px = to_rgba(&Color3::new(0, 0, 0));
    assert_eq!(px, Rgba::rgb(0, 0, 0));
    assert_eq!(px.a, 255);
}

#[test]
fn rgba_construction() {
    let c = Rgba::rgb(1, 2, 3);
    assert_eq!((c.r, c.g, c.b, c.a), (1, 2, 3, 255));
    let c = Rgba::rgba(1, 2, 3, 4);
    assert_eq!(c.a, 4);
    assert_eq!(<Rgba as Color>::component_count(), 4);
    let mut buf = vec![0u8; 4];
    c.store(&mut buf);
    assert_eq!(buf, vec![1, 2, 3, 4]);
    let d = Rgba::load(&buf);
    assert_eq!(d, c);
}

#[test]
fn images_store_pixels() {
    let mut img = RgbaImage::new(4, 3);
    assert_eq!(img.width(), 4);
    assert_eq!(img.height(), 3);
    img.set_pixel(2, 1, Rgba::rgb(9, 8, 7));
    assert_eq!(img.get_pixel(2, 1), Rgba::rgb(9, 8, 7));
    assert_eq!(img.get_pixel(0, 0), Rgba::rgba(0, 0, 0, 0));
    assert_eq!(img.pixel_offset(2, 1), 4 * (1 * 4 + 2));
    let bytes = img.into_bytes();
    assert_eq!(bytes.len(), 4 * 4 * 3);

    let mut hdr_img = Image::new(5, 2);
    hdr_img.set_pixel(4, 1, Color3::new(1, 2, 3));
    let c = hdr_img.get_pixel(4, 1);
    assert_eq!((c.r, c.g, c.b), (1, 2, 3));
}

#[test]
fn random_streams_are_deterministic() {
    let mut a = RandomGenerator::for_stream(7, 3);
    let mut b = RandomGenerator::for_stream(7, 3);
    for _ in 0..100 {
        assert_eq!(a.next_u32(), b.next_u32());
    }
}

#[test]
fn random_streams_diverge() {
    let mut a = RandomGenerator::for_stream(7, 0);
    let mut b = RandomGenerator::for_stream(7, 1);
    let mut differs = false;
    for _ in 0..64 {
        if a.next_u32() != b.next_u32() {
            differs = true;
        }
    }
    assert!(differs);
}

#[test]
fn random_unit_bounds() {
    let mut g = RandomGenerator::new();
    for _ in 0..1000 {
        let u = g.unit();
        assert!((0..FP_ONE).contains(&u));
        let r = g.range(-FP_ONE, FP_ONE);
        assert!((-FP_ONE..FP_ONE).contains(&r));
    }
}

#[test]
fn unit_sphere_sampling() {
    let mut g = RandomGenerator::new();
    let mut sx: i64 = 0;
    let mut sy: i64 = 0;
    let mut sz: i64 = 0;
    let n = 2000;
    for _ in 0..n {
        let v = g.unit_sphere();
        let ls = v.len_squared();
        assert!((ls - FP_ONE).abs() < 500, "length squared {ls}");
        sx += v.x;
        sy += v.y;
        sz += v.z;
    }
    let bound = (n as i64) * FP_ONE / 10;
    assert!(sx.abs() < bound && sy.abs() < bound && sz.abs() < bound, "{sx} {sy} {sz}");
}

fn tiny_hdr() -> Vec<u8> {
    let mut d = Vec::new();
    d.extend_from_slice(b"#?RADIANCE\n");
    d.extend_from_slice(b"# a comment\n");
    d.extend_from_slice(b"FORMAT=32-bit_rle_rgbe\n");
    d.extend_from_slice(b"\n");
    d.extend_from_slice(b"-Y 2 +X 2\n");
    for _ in 0..2 {
        d.extend_from_slice(&[0x02, 0x02, 0x00, 0x02]);
        d.extend_from_slice(&[2, 10, 20]);
        d.extend_from_slice(&[2, 30, 40]);
        d.extend_from_slice(&[2, 50, 60]);
        d.extend_from_slice(&[2, 128, 128]);
    }
    d
}

#[test]
fn hdr_decodes_a_tiny_image() {
    let img = hdr::parse(&tiny_hdr()).unwrap();
    assert_eq!(img.width(), 2);
    assert_eq!(img.height(), 2);
    let c = img.get_pixel(0, 1);
    assert_eq!((c.r, c.g, c.b), (10 << 8, 30 << 8, 50 << 8));
    let c = img.get_pixel(1, 1);
    assert_eq!((c.r, c.g, c.b), (20 << 8, 40 << 8, 60 << 8));
    let c = img.get_pixel(0, 0);
    assert_eq!((c.r, c.g, c.b), (10 << 8, 30 << 8, 50 << 8));
}

#[test]
fn hdr_run_length_runs() {
    let mut d = Vec::new();
    d.extend_from_slice(b"#?RADIANCE\n\n-Y 1 +X 4\n");
    d.extend_from_slice(&[0x02, 0x02, 0x00, 0x04]);
    d.extend_from_slice(&[0x84, 7]);
    d.extend_from_slice(&[0x84, 9]);
    d.extend_from_slice(&[0x84, 11]);
    d.extend_from_slice(&[0x84, 128]);
    let img = hdr::parse(&d).unwrap();
    assert_eq!((img.width(), img.height()), (4, 1));
    for x in 0..4 {
        let c = img.get_pixel(x, 0);
        assert_eq!((c.r, c.g, c.b), (7 << 8, 9 << 8, 11 << 8));
    }
}

#[test]
fn hdr_rejects_bad_magic() {
    assert!(matches!(hdr::parse(b"#?NOPE\n\n-Y 1 +X 1\n"), Err(Error::HdrDecodingError)));
}

#[test]
fn hdr_rejects_bad_format() {
    let d = b"#?RADIANCE\nFORMAT=8-bit\n\n-Y 1 +X 1\n";
    assert!(matches!(hdr::parse(d), Err(Error::HdrDecodingError)));
}

#[test]
fn hdr_rejects_bad_dimensions() {
    let d = b"#?RADIANCE\n\n-Y abc +X 1\n";
    assert!(matches!(hdr::parse(d), Err(Error::ParseIntError)));
}

#[test]
fn hdr_rejects_overlong_run() {
    let mut d = Vec::new();
    d.extend_from_slice(b"#?RADIANCE\n\n-Y 1 +X 2\n");
    d.extend_from_slice(&[0x02, 0x02, 0x00, 0x02]);
    d.extend_from_slice(&[0xC8, 7]);
    assert!(matches!(hdr::parse(&d), Err(Error::HdrDecodingError)));
}

#[test]
fn hdr_rejects_truncation() {
    let d = b"#?RADIANCE\n\n-Y 1 +X 2\n\x02\x02\x00\x02";
    assert!(matches!(hdr::parse(d), Err(Error::HdrDecodingError)));
}
