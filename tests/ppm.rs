use raycaster::color::{ColorChannel, pack_color};
use raycaster::framebuffer::Framebuffer;
use raycaster::ppm::{encode_ppm, push_decimal};

#[test]
fn decimal_digits() {
    let mut out = vec![b'x'];
    push_decimal(&mut out, 0);
    push_decimal(&mut out, 1024);
    assert_eq!(out, b"x01024".to_vec());
}

#[test]
fn encodes_header_and_rgb_without_alpha() {
    let mut fb = Framebuffer::new(2, 1, 0);
    fb.set_pixel(0, 0, pack_color(ColorChannel { red: 1, green: 2, blue: 3, alpha: 4 }));
    fb.set_pixel(1, 0, pack_color(ColorChannel { red: 250, green: 251, blue: 252, alpha: 253 }));
    let mut expected = b"P6\n2 1\n255\n".to_vec();
    expected.extend_from_slice(&[1, 2, 3, 250, 251, 252]);
    assert_eq!(encode_ppm(&fb), expected);
}

#[test]
fn encoded_length_is_header_plus_three_bytes_per_pixel() {
    let fb = Framebuffer::new(1024, 512, 0x00ff_ffff);
    let bytes = encode_ppm(&fb);
    let header = b"P6\n1024 512\n255\n";
    assert_eq!(&bytes[..header.len()], header);
    assert_eq!(bytes.len(), header.len() + 3 * 1024 * 512);
    assert!(bytes[header.len()..].iter().all(|&b| b == 255));
}
