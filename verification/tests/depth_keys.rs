use space_travel::depth::depth_key;
use space_travel::planet_lab::framebuffer::FAR_DEPTH;

fn key(z: f32) -> u32 {
    depth_key(z.to_bits())
}

#[test]
fn keys_order_as_depths() {
    let depths = [
        f32::NEG_INFINITY, -1.0e30, -2.5, -1.0, -f32::MIN_POSITIVE, -1.0e-45, 0.0, 1.0e-45,
        f32::MIN_POSITIVE, 0.5, 1.0, 3.0, 1.0e30, f32::MAX, f32::INFINITY,
    ];
    for &a in &depths {
        for &b in &depths {
            assert_eq!(key(a) < key(b), a < b, "{a} vs {b}");
            assert_eq!(key(a) == key(b), a == b, "{a} vs {b}");
        }
    }
}

#[test]
fn special_depths() {
    assert_eq!(key(f32::INFINITY), FAR_DEPTH);
    assert_eq!(key(-0.0), key(0.0));
    assert_eq!(key(0.0), 0x8000_0000);
    assert_eq!(key(f32::NAN), u32::MAX);
    assert_eq!(key(-f32::NAN), u32::MAX);
    assert!(key(f32::MAX) < FAR_DEPTH);
}
