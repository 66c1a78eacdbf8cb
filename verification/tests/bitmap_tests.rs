use diorama::color::Color;
use diorama::framebuffer::Framebuffer;

#[test]
fn red_square_of_two_by_two() {
    let fb = Framebuffer::new(2, 2, Color::new(255, 0, 0));
    let file = fb.render_buffer().unwrap();
    assert_eq!(file.len(), 54 + 16);
    let header: [u8; 54] = [
        0x42, 0x4D, // "BM"
        70, 0, 0, 0, // size of the file
        0, 0, 0, 0, // reserved
        54, 0, 0, 0, // offset of the pixels
        40, 0, 0, 0, // size of the information header
        2, 0, 0, 0, // width
        2, 0, 0, 0, // height
        1, 0, // planes
        32, 0, // bits per pixel
        0, 0, 0, 0, // compression
        16, 0, 0, 0, // size of the pixels
        0, 0, 0, 0, 0, 0, 0, 0, 0, 0, 0, 0, 0, 0, 0, 0,
    ];
    assert_eq!(&file[..54], &header[..]);
    for pixel in file[54..].chunks(4) {
        assert_eq!(pixel, &[0x00, 0x00, 0xFF, 0xFF]);
    }
}

#[test]
fn rows_are_written_from_the_bottom_up() {
    let mut fb = Framebuffer::new(2, 2, Color::new(0, 0, 0));
    fb.buffer = vec![0x010203, 0x040506, 0x070809, 0x0A0B0C];
    let file = fb.render_buffer().unwrap();
    assert_eq!(
        &file[54..],
        &[
            0x09, 0x08, 0x07, 0xFF, 0x0C, 0x0B, 0x0A, 0xFF, // bottom row
            0x03, 0x02, 0x01, 0xFF, 0x06, 0x05, 0x04, 0xFF, // top row
        ]
    );
}

#[test]
fn top_byte_of_a_pixel_is_not_written() {
    let mut fb = Framebuffer::new(1, 1, Color::new(0, 0, 0));
    fb.buffer = vec![0x7F112233];
    let file = fb.render_buffer().unwrap();
    assert_eq!(&file[54..], &[0x33, 0x22, 0x11, 0xFF]);
}

#[test]
fn header_fields_are_little_endian() {
    let fb = Framebuffer::new(300, 2, Color::new(0, 0, 0));
    let mut out = vec![0xEE];
    assert!(fb.fits_bmp());
    fb.write_bmp_header(&mut out);
    assert_eq!(out.len(), 55);
    assert_eq!(out[0], 0xEE);
    // 54 + 300 * 2 * 4 = 2454 = 0x0996
    assert_eq!(&out[3..7], &[0x96, 0x09, 0, 0]);
    // 300 = 0x012C
    assert_eq!(&out[19..23], &[0x2C, 0x01, 0, 0]);
    assert_eq!(&out[23..27], &[2, 0, 0, 0]);
    // 2400 = 0x0960
    assert_eq!(&out[35..39], &[0x60, 0x09, 0, 0]);
}

#[test]
fn pixel_data_is_appended() {
    let fb = Framebuffer::new(1, 2, Color::new(1, 2, 3));
    let mut out = vec![9, 9];
    fb.write_pixel_data(&mut out);
    assert_eq!(out, vec![9, 9, 3, 2, 1, 0xFF, 3, 2, 1, 0xFF]);
}

#[test]
fn empty_framebuffer_is_a_header_alone() {
    let fb = Framebuffer::new(0, 0, Color::new(0, 0, 0));
    let file = fb.render_buffer().unwrap();
    assert_eq!(file.len(), 54);
    assert_eq!(&file[2..6], &[54, 0, 0, 0]);
}

#[test]
fn a_width_beyond_31_bits_does_not_fit() {
    let fb = Framebuffer::new(0x8000_0000, 0, Color::new(0, 0, 0));
    assert!(!fb.fits_bmp());
    assert!(fb.render_buffer().is_none());
    let fb = Framebuffer::new(0, 0x8000_0000, Color::new(0, 0, 0));
    assert!(!fb.fits_bmp());
    assert!(fb.render_buffer().is_none());
    let fb = Framebuffer::new(0x7FFF_FFFF, 0, Color::new(0, 0, 0));
    assert!(fb.fits_bmp());
}
