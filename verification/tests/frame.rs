use supermips::syscalls::{draw_rect, fill_screen, HEIGHT, WIDTH};

#[test]
fn frame_dimensions() {
    assert_eq!(WIDTH, 640);
    assert_eq!(HEIGHT, 480);
}

#[test]
fn fill_screen_sets_every_whole_pixel() {
    let mut frame = vec![9u8; 16];
    fill_screen(&mut frame, 0xFF00_807F);
    assert_eq!(frame, [255, 0, 128, 127].repeat(4));
}

#[test]
fn fill_screen_leaves_a_broken_last_pixel() {
    let mut frame = vec![9u8; 10];
    fill_screen(&mut frame, 0x0102_0304);
    assert_eq!(frame, vec![1, 2, 3, 4, 1, 2, 3, 4, 9, 9]);
    let mut short = vec![9u8; 3];
    fill_screen(&mut short, 0x0102_0304);
    assert_eq!(short, vec![9, 9, 9]);
    let mut empty: Vec<u8> = Vec::new();
    fill_screen(&mut empty, 0x0102_0304);
    assert!(empty.is_empty());
}

fn pixel(x: usize, y: usize) -> usize {
    y * WIDTH as usize + x * 4
}

#[test]
fn draw_rect_sets_the_pixels_between_the_corners() {
    let mut frame = vec![0u8; 4 * 640];
    draw_rect(&mut frame, 0x0A0B_0C0D, 0x0002_0001, 0x0005_0003);
    let mut expected = vec![0u8; 4 * 640];
    for x in 2..5 {
        for y in 1..3 {
            expected[pixel(x, y)..pixel(x, y) + 4].copy_from_slice(&[0x0A, 0x0B, 0x0C, 0x0D]);
        }
    }
    assert_eq!(frame, expected);
    assert_eq!(frame.iter().filter(|byte| **byte != 0).count(), 3 * 2 * 4);
}

#[test]
fn draw_rect_starts_at_the_upper_left_corner() {
    let mut frame = vec![0u8; 3 * 640];
    draw_rect(&mut frame, 0xFFFF_FFFF, 0x0000_0000, 0x0001_0001);
    assert_eq!(&frame[0..4], &[255, 255, 255, 255]);
    assert!(frame[4..].iter().all(|byte| *byte == 0));
    draw_rect(&mut frame, 0x0101_0101, 0x0001_0002, 0x0002_0003);
    assert_eq!(&frame[pixel(1, 2)..pixel(1, 2) + 4], &[1, 1, 1, 1]);
    assert_eq!(frame.iter().filter(|byte| **byte == 1).count(), 4);
}

#[test]
fn draw_rect_of_an_empty_rectangle_changes_nothing() {
    let mut frame = vec![7u8; 32];
    draw_rect(&mut frame, 0x0102_0304, 0x0003_0003, 0x0003_0009);
    draw_rect(&mut frame, 0x0102_0304, 0x0003_0003, 0x0009_0003);
    draw_rect(&mut frame, 0x0102_0304, 0x0009_0009, 0x0001_0001);
    draw_rect(&mut frame, 0x0102_0304, 0xFFFF_FFFF, 0x0000_0000);
    assert_eq!(frame, vec![7u8; 32]);
    let mut empty: Vec<u8> = Vec::new();
    draw_rect(&mut empty, 0x0102_0304, 0x0000_0000, 0x0000_0000);
    assert!(empty.is_empty());
}

#[test]
fn draw_rect_up_to_the_last_byte_of_the_frame() {
    let mut frame = vec![0u8; 640 + 8];
    draw_rect(&mut frame, 0x0102_0304, 0x0000_0000, 0x0002_0002);
    assert_eq!(&frame[0..8], &[1, 2, 3, 4, 1, 2, 3, 4]);
    assert_eq!(&frame[640..648], &[1, 2, 3, 4, 1, 2, 3, 4]);
    assert!(frame[8..640].iter().all(|byte| *byte == 0));
}
